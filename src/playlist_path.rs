//! Telling a local playlist file from a URL.

use vstd::prelude::*;
use crate::text::chars_of;

verus! {

/// The last component of a path, as `std::path::Path::file_name` gives it.
pub uninterp spec fn file_name_of(path: Seq<char>) -> Option<Seq<char>>;

/// Relies on `std::path::Path::is_file`: whether a regular file is at `path`
/// at the time of the call. Nothing is promised: the answer depends on the disk.
#[verifier::external_body]
fn is_existing_file(path: &str) -> bool {
    std::path::Path::new(path).is_file()
}

/// Relies on `std::path::Path::file_name`: the last component of the path,
/// which depends on the text alone.
#[verifier::external_body]
fn file_name(path: &str) -> (r: Option<String>)
    ensures
        match r {
            Some(n) => file_name_of(path@) == Some(n@),
            None => file_name_of(path@) is None,
        },
{
    std::path::Path::new(path).file_name().and_then(|n| n.to_str()).map(|n| n.to_string())
}

/// The text after the last dot of `s`, or all of `s` when it holds no dot.
pub open spec fn extension_of(s: Seq<char>) -> Seq<char>
    decreases s.len(),
{
    if s.len() == 0 {
        s
    } else if s.last() == '.' {
        seq![]
    } else {
        extension_of(s.drop_last()).push(s.last())
    }
}

/// Whether a file name ends in `.m3u` or `.m3u8` (a name that is only the
/// extension counts too).
pub open spec fn is_m3u_name(name: Seq<char>) -> bool {
    extension_of(name) == "m3u"@ || extension_of(name) == "m3u8"@
}

/// Whether the last component of `path` is a playlist file name.
pub open spec fn m3u_file_name(path: Seq<char>) -> bool {
    file_name_of(path) matches Some(n) && is_m3u_name(n)
}

/// The text after the last dot of `s`, as `extension_of` describes it.
fn extension(s: &Vec<char>) -> (r: Vec<char>)
    ensures
        r@ == extension_of(s@),
{
    let mut start: usize = s.len();
    assert(s@.take(start as int) =~= s@);
    assert(s@ + s@.skip(start as int) =~= s@);
    while start > 0 && s[start - 1] != '.'
        invariant
            start <= s.len(),
            extension_of(s@) == extension_of(s@.take(start as int)) + s@.skip(start as int),
        decreases start,
    {
        proof {
            let t = s@.take(start as int);
            assert(t.drop_last() =~= s@.take(start - 1));
            assert(t.last() == s@[start - 1]);
            assert(s@.skip(start - 1) =~= seq![s@[start - 1]] + s@.skip(start as int));
            assert(extension_of(t) == extension_of(t.drop_last()).push(t.last()));
            assert(extension_of(s@.take(start - 1)).push(s@[start - 1]) + s@.skip(start as int)
                =~= extension_of(s@.take(start - 1)) + s@.skip(start - 1));
        }
        start -= 1;
    }
    proof {
        let t = s@.take(start as int);
        if start > 0 {
            assert(t.last() == '.');
        }
        assert(extension_of(t) =~= seq![]);
        assert(seq![] + s@.skip(start as int) =~= s@.skip(start as int));
    }
    let mut r: Vec<char> = Vec::new();
    let mut i = start;
    while i < s.len()
        invariant
            start <= i <= s.len(),
            r@ == s@.subrange(start as int, i as int),
        decreases s.len() - i,
    {
        r.push(s[i]);
        i += 1;
        assert(r@ =~= s@.subrange(start as int, i as int));
    }
    assert(r@ =~= s@.skip(start as int));
    r
}

/// Whether `file_name` ends in `.m3u` or `.m3u8`.
pub fn has_m3u_extension(file_name: &str) -> (r: bool)
    ensures
        r == is_m3u_name(file_name@),
{
    let ext = extension(&chars_of(file_name));
    let m3u = chars_of("m3u");
    let m3u8 = chars_of("m3u8");
    same_chars(&ext, &m3u) || same_chars(&ext, &m3u8)
}

fn same_chars(a: &Vec<char>, b: &Vec<char>) -> (r: bool)
    ensures
        r == (a@ == b@),
{
    if a.len() != b.len() {
        return false;
    }
    let mut i: usize = 0;
    while i < a.len()
        invariant
            i <= a.len() == b.len(),
            forall|j: int| 0 <= j < i ==> a@[j] == b@[j],
        decreases a.len() - i,
    {
        if a[i] != b[i] {
            return false;
        }
        i += 1;
    }
    assert(a@ =~= b@);
    true
}

/// Whether `argument` names a playlist file, given whether a regular file
/// is at that path (`is_file`): the file must exist and its name end in
/// `.m3u` or `.m3u8`.
pub fn is_m3u_filepath(argument: &str, is_file: bool) -> (r: bool)
    ensures
        r == (is_file && m3u_file_name(argument@)),
{
    if !is_file {
        return false;
    }
    match file_name(argument) {
        Some(n) => has_m3u_extension(n.as_str()),
        None => false,
    }
}

/// Whether `argument` names an existing playlist file: a regular file whose
/// name ends in `.m3u` or `.m3u8`. Whether the file exists is read from the
/// disk at the call; `is_m3u_filepath` decides from that answer.
pub fn check_is_m3u_filepath(argument: &str) -> (r: bool)
    ensures
        r ==> m3u_file_name(argument@),
{
    let exists = is_existing_file(argument);
    is_m3u_filepath(argument, exists)
}

} // verus!
