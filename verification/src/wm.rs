//! The window manager's bookkeeping: the window stack, the pointer, and
//! the drag state machine.  Painting walks the clipping algebra of the
//! rectangle module; pushing pixels to the screen is the surrounding
//! system's job.

use vstd::prelude::*;

use crate::ds::stack::Stack;
use crate::rect::Rect;
use crate::window::Window;

verus! {

/// Width of the screen in pixels.
pub const SCREEN_WIDTH: u16 = 1024;

/// Height of the screen in pixels.
pub const SCREEN_HEIGHT: u16 = 768;

/// Height of the bar along the screen's top edge.
pub const TOP_BAR_HEIGHT: u16 = 30;

/// The drag state machine: idle until a press selects a window, dragging
/// while the button stays down.
#[derive(Clone, Copy, Debug, PartialEq, Eq, Structural)]
pub enum WMState {
    Idle,
    Select,
    Drag,
}

/// The manager: the windows from front to back, the pointer, and the
/// interaction state.
pub struct WindowManager {
    pub windows: Stack<Window>,
    pub mouse_coords: (u16, u16),
    pub drag_offset: (u16, u16),
    pub fb_addr: usize,
    pub current_wid: usize,
    pub area: Rect,
    pub current_state: WMState,
}

impl WindowManager {
    /// A manager with no windows, the pointer parked mid-screen, covering
    /// the screen below the top bar.
    pub fn new() -> (wm: WindowManager)
        ensures
            wm.windows.view().len() == 0,
            wm.mouse_coords == (512u16, 384u16),
            wm.current_wid == 0,
            wm.current_state == WMState::Idle,
            wm.fb_addr == 0,
            wm.area == (Rect {
                top: TOP_BAR_HEIGHT,
                bottom: SCREEN_HEIGHT,
                left: 0,
                right: SCREEN_WIDTH,
            }),
    {
        WindowManager {
            windows: Stack::new(),
            mouse_coords: (512, 384),
            drag_offset: (0, 0),
            fb_addr: 0,
            current_wid: 0,
            area: Rect::new(TOP_BAR_HEIGHT, SCREEN_HEIGHT, SCREEN_WIDTH, 0),
            current_state: WMState::Idle,
        }
    }

    /// Points the manager at the framebuffer.
    pub fn set_fb_address(&mut self, address: usize)
        ensures
            final(self).fb_addr == address,
            final(self).windows.view() == old(self).windows.view(),
    {
        self.fb_addr = address;
    }

    /// Adopts a window on top of the stack under a fresh identifier,
    /// which is returned.
    pub fn add_window(&mut self, window: Window) -> (wid: usize)
        requires
            old(self).current_wid < usize::MAX,
        ensures
            wid == old(self).current_wid,
            final(self).current_wid == old(self).current_wid + 1,
            final(self).windows.view().len() == old(self).windows.view().len() + 1,
            final(self).windows.view()[0].wid == wid,
    {
        let mut window = window;
        window.wid = self.current_wid;
        self.current_wid = self.current_wid + 1;
        self.windows.push(window);
        self.current_wid - 1
    }

    /// Digests one pointer event: presses inside the managed area drive
    /// the idle, select and drag states; a release always returns to
    /// idle.  Off-screen coordinates are ignored.
    pub fn handle_mouse_event(&mut self, new_mouse_coords: (u16, u16), is_left_click: bool)
        ensures
            !(new_mouse_coords.0 < SCREEN_WIDTH && new_mouse_coords.0 > 0 && new_mouse_coords.1
                < SCREEN_HEIGHT && new_mouse_coords.1 > TOP_BAR_HEIGHT) ==> *final(self) == *old(
                self,
            ),
            !is_left_click && (new_mouse_coords.0 < SCREEN_WIDTH && new_mouse_coords.0 > 0
                && new_mouse_coords.1 < SCREEN_HEIGHT && new_mouse_coords.1 > TOP_BAR_HEIGHT)
                ==> final(self).current_state == WMState::Idle && final(self).mouse_coords
                == new_mouse_coords,
    {
        let new_x = new_mouse_coords.0;
        let new_y = new_mouse_coords.1;
        if !(new_x < SCREEN_WIDTH && new_x > 0 && new_y < SCREEN_HEIGHT && new_y > TOP_BAR_HEIGHT) {
            return ;
        }
        if !is_left_click {
            self.current_state = WMState::Idle;
        } else {
            match self.current_state {
                WMState::Idle => {
                    if self.window_under(self.mouse_coords).is_some() {
                        self.current_state = WMState::Select;
                    }
                }
                WMState::Select => {
                    self.current_state = WMState::Drag;
                }
                WMState::Drag => {}
            }
        }
        self.mouse_coords = new_mouse_coords;
    }

    /// Index of the frontmost window under the given coordinates.
    pub fn window_under(&self, coords: (u16, u16)) -> (r: Option<usize>)
        ensures
            r matches Some(i) ==> i < self.windows.view().len(),
    {
        let n = self.windows.view_len();
        let mut i: usize = 0;
        while i < n
            invariant
                i <= n,
                n == self.windows.view().len(),
            decreases n - i,
        {
            match self.windows.get(i) {
                Some(w) => {
                    if w.y <= u16::MAX - w.height && w.x <= u16::MAX - w.width {
                        let rect = w.generate_rect();
                        if rect.coord_does_intersect(coords) {
                            return Some(i);
                        }
                    }
                }
                None => {}
            }
            i = i + 1;
        }
        None
    }
}

} // verus!
