//! Which files are pushed to the ingestion endpoint.

use vstd::prelude::*;
use crate::text::chars_of;

verus! {

/// The index of the last `c` in `s`, or `-1`.
pub open spec fn last_index_of(s: Seq<char>, c: char) -> int
    decreases s.len(),
{
    if s.len() == 0 {
        -1
    } else if s.last() == c {
        s.len() - 1
    } else {
        last_index_of(s.drop_last(), c)
    }
}

/// The extension of a file name, as `Path::extension` gives it: the text
/// after the last `.`, except for `..`, names without a `.`, and names whose
/// only `.` is the first character.
pub open spec fn extension_of(name: Seq<char>) -> Option<Seq<char>> {
    let i = last_index_of(name, '.');
    if name == ".."@ || i <= 0 { None } else { Some(name.skip(i + 1)) }
}

/// A directory entry is pushed when it is a file whose name has the
/// extension `json`.
pub open spec fn should_push_spec(is_file: bool, file_name: Option<Seq<char>>) -> bool {
    is_file && match file_name {
        Some(n) => extension_of(n) == Some("json"@),
        None => false,
    }
}

/// The extension of a file name (see `extension_of`).
pub fn file_extension(name: &str) -> (r: Option<String>)
    ensures
        match r {
            Some(e) => extension_of(name@) == Some(e@),
            None => extension_of(name@) is None,
        },
{
    let v = chars_of(name);
    let dots = String::from_str("..");
    let owned = String::from_str(name);
    if owned == dots {
        return None;
    }
    let mut i: usize = v.len();
    proof {
        assert(v@.take(i as int) =~= v@);
    }
    while i > 0 && v[i - 1] != '.'
        invariant
            i <= v@.len(),
            v@ == name@,
            forall|j: int| i <= j < v@.len() ==> v@[j] != '.',
            last_index_of(v@, '.') == last_index_of(v@.take(i as int), '.'),
        decreases i,
    {
        proof {
            assert(v@.take(i as int).drop_last() =~= v@.take(i - 1));
        }
        i = i - 1;
    }
    proof {
        if i > 0 {
            assert(v@.take(i as int).last() == '.');
        }
    }
    if i <= 1 {
        return None;
    }
    let e = crate::text::string_of_range(v.as_slice(), i, v.len());
    proof {
        assert(v@.subrange(i as int, v@.len() as int) =~= v@.skip(i as int));
    }
    Some(e)
}

/// Whether a directory entry is pushed to the ingestion endpoint.
pub fn should_push(is_file: bool, file_name: Option<&str>) -> (b: bool)
    ensures
        b == should_push_spec(is_file, match file_name { Some(n) => Some(n@), None => None }),
{
    if !is_file {
        return false;
    }
    match file_name {
        None => false,
        Some(n) => match file_extension(n) {
            Some(e) => e == String::from_str("json"),
            None => false,
        },
    }
}

} // verus!
