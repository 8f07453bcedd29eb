//! Byte-string helpers for the 8.3 filenames of the filesystem.

use vstd::prelude::*;

verus! {

/// The ASCII lower-case form of a byte.
pub open spec fn to_lower(b: u8) -> u8 {
    if 65 <= b <= 90 {
        (b + 32) as u8
    } else {
        b
    }
}

/// Length of `s` with trailing spaces and zero bytes dropped.
pub open spec fn trimmed_len(s: Seq<u8>) -> int
    decreases s.len(),
{
    if s.len() == 0 {
        0
    } else if s.last() == 32 || s.last() == 0 {
        trimmed_len(s.drop_last())
    } else {
        s.len() as int
    }
}

/// The field's bytes with trailing padding — spaces and zero bytes —
/// removed, as directory-entry names are stored padded.
pub fn convert_utf8_to_trimmed_string(filename: &Vec<u8>) -> (r: Vec<u8>)
    ensures
        r@ == filename@.subrange(0, trimmed_len(filename@)),
{
    let mut end = filename.len();
    proof {
        assert(filename@.subrange(0, filename@.len() as int) =~= filename@);
    }
    while end > 0 && (filename[end - 1] == 32 || filename[end - 1] == 0)
        invariant
            end <= filename@.len(),
            trimmed_len(filename@) == trimmed_len(filename@.subrange(0, end as int)),
        decreases end,
    {
        proof {
            assert(filename@.subrange(0, end as int).drop_last() =~= filename@.subrange(
                0,
                end as int - 1,
            ));
            assert(filename@.subrange(0, end as int).last() == filename@[end as int - 1]);
        }
        end = end - 1;
    }
    proof {
        if end > 0 {
            let s = filename@.subrange(0, end as int);
            assert(s.last() == filename@[end as int - 1]);
            assert(trimmed_len(s) == end as int);
        } else {
            assert(trimmed_len(filename@.subrange(0, 0)) == 0);
        }
    }
    let mut out: Vec<u8> = Vec::new();
    let mut i: usize = 0;
    while i < end
        invariant
            i <= end,
            end <= filename@.len(),
            out@.len() == i as int,
            forall|k: int| 0 <= k < i as int ==> out@[k] == filename@[k],
        decreases end - i,
    {
        out.push(filename[i]);
        i = i + 1;
    }
    proof {
        assert(out@ =~= filename@.subrange(0, end as int));
    }
    out
}

/// Joins a name and an extension as `name.ext`, both lower-cased, as the
/// kernel shows directory entries.
pub fn concatenate_filename_ext(filename: &Vec<u8>, ext: &Vec<u8>) -> (r: Vec<u8>)
    requires
        filename@.len() + 1 + ext@.len() <= usize::MAX,
    ensures
        r@.len() == filename@.len() + 1 + ext@.len(),
        forall|k: int| 0 <= k < filename@.len() ==> r@[k] == to_lower(#[trigger] filename@[k]),
        r@[filename@.len() as int] == 46,
        forall|k: int|
            0 <= k < ext@.len() ==> r@[filename@.len() + 1 + k] == to_lower(#[trigger] ext@[k]),
{
    let mut out: Vec<u8> = Vec::new();
    let mut i: usize = 0;
    while i < filename.len()
        invariant
            i <= filename@.len(),
            out@.len() == i as int,
            forall|k: int| 0 <= k < i as int ==> out@[k] == to_lower(#[trigger] filename@[k]),
        decreases filename@.len() - i,
    {
        out.push(lower_byte(filename[i]));
        i = i + 1;
    }
    out.push(46);
    let mut j: usize = 0;
    while j < ext.len()
        invariant
            j <= ext@.len(),
            out@.len() == filename@.len() + 1 + j as int,
            forall|k: int| 0 <= k < filename@.len() ==> out@[k] == to_lower(#[trigger] filename@[k]),
            out@[filename@.len() as int] == 46,
            forall|k: int|
                0 <= k < j as int ==> out@[filename@.len() + 1 + k] == to_lower(#[trigger] ext@[k]),
        decreases ext@.len() - j,
    {
        out.push(lower_byte(ext[j]));
        j = j + 1;
    }
    out
}

/// The ASCII lower-case form of a byte, executable form.
pub fn lower_byte(b: u8) -> (r: u8)
    ensures
        r == to_lower(b),
{
    if 65 <= b && b <= 90 {
        b + 32
    } else {
        b
    }
}

} // verus!
