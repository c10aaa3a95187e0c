use vstd::prelude::*;
use vstd::string::StrSliceExecFns;

verus! {

/// The characters of a string, one by one.
pub fn chars_of(s: &str) -> (res: Vec<char>)
    ensures
        res@ == s@,
{
    let mut chars: Vec<char> = Vec::new();
    if s.is_ascii() {
        let len = s.as_bytes().len();
        proof {
            vstd::string::is_ascii_spec_bytes(s);
        }
        let mut i: usize = 0;
        while i < len
            invariant
                s.is_ascii(),
                len == s@.len(),
                i <= len,
                chars@ == s@.take(i as int),
            decreases len - i,
        {
            let b = s.get_ascii(i);
            chars.push(b as char);
            i += 1;
        }
    } else {
        let len = s.unicode_len();
        let mut i: usize = 0;
        while i < len
            invariant
                len == s@.len(),
                i <= len,
                chars@ == s@.take(i as int),
            decreases len - i,
        {
            chars.push(s.get_char(i));
            i += 1;
        }
    }
    chars
}

/// The part of a string from character `from` up to character `to`.
/// `ascii` says whether the string is plain ASCII, which makes the cut
/// cheap.
pub fn part<'a>(s: &'a str, ascii: bool, from: usize, to: usize) -> (res: &'a str)
    requires
        from <= to <= s@.len(),
        ascii == s.is_ascii(),
    ensures
        res@ == s@.subrange(from as int, to as int),
{
    if ascii {
        s.substring_ascii(from, to)
    } else {
        s.substring_char(from, to)
    }
}

} // verus!
