//! Relative paths as written in FOMOD files: components separated by `/` or
//! `\`, matched against directory entries without regard to ASCII case.
use vstd::prelude::*;
use vstd::string::*;
use crate::text::{eq_ignore_ascii_case, str_eq_ignore_ascii_case};

verus! {

pub open spec fn is_separator(c: char) -> bool {
    c == '/' || c == '\\'
}

/// The parts of `s` between separators; one more than there are separators.
pub open spec fn split_separators(s: Seq<char>) -> Seq<Seq<char>>
    decreases s.len(),
{
    if s.len() == 0 {
        seq![Seq::<char>::empty()]
    } else {
        let prev = split_separators(s.drop_last());
        if is_separator(s.last()) {
            prev.push(Seq::<char>::empty())
        } else {
            prev.update(prev.len() - 1, prev.last().push(s.last()))
        }
    }
}

/// The parts that are not empty, in order.
pub open spec fn nonempty_parts(parts: Seq<Seq<char>>) -> Seq<Seq<char>>
    decreases parts.len(),
{
    if parts.len() == 0 {
        Seq::empty()
    } else {
        let prev = nonempty_parts(parts.drop_last());
        if parts.last().len() > 0 {
            prev.push(parts.last())
        } else {
            prev
        }
    }
}

/// The components of a relative path: its non-empty parts between `/` and
/// `\` separators.
pub open spec fn path_components(s: Seq<char>) -> Seq<Seq<char>> {
    nonempty_parts(split_separators(s))
}

/// The components of a relative path, in order.
pub fn path_parts(relative: &str) -> (r: Vec<String>)
    ensures
        r@.map_values(|p: String| p@) == path_components(relative@),
{
    let n = relative.unicode_len();
    let ghost s = relative@;
    let mut out: Vec<String> = Vec::new();
    let mut start: usize = 0;
    let ghost mut done: Seq<Seq<char>> = seq![];
    let mut i: usize = 0;
    assert(s.take(0) =~= Seq::<char>::empty());
    assert(s.subrange(0, 0) =~= Seq::<char>::empty());
    while i < n
        invariant
            n == s.len(),
            s == relative@,
            start <= i <= n,
            split_separators(s.take(i as int)) == done.push(s.subrange(start as int, i as int)),
            out@.map_values(|p: String| p@) == nonempty_parts(done),
        decreases n - i,
    {
        let c = relative.get_char(i);
        assert(s.take(i + 1).drop_last() =~= s.take(i as int));
        assert(s.take(i + 1).last() == c);
        if c == '/' || c == '\\' {
            let ghost part = s.subrange(start as int, i as int);
            if start < i {
                let piece = String::from_str(relative.substring_char(start, i));
                let ghost prior = out@;
                out.push(piece);
                assert(out@.map_values(|p: String| p@) =~= prior.map_values(|p: String| p@).push(
                    part,
                ));
            }
            proof {
                assert(done.push(part).drop_last() =~= done);
                done = done.push(part);
            }
            start = i + 1;
            assert(s.subrange(start as int, i + 1) =~= Seq::<char>::empty());
        } else {
            proof {
                assert(s[i as int] == c);
                assert(s.subrange(start as int, i as int).push(c) =~= s.subrange(start as int, i + 1));
                let prev = done.push(s.subrange(start as int, i as int));
                assert(prev.update(prev.len() - 1, prev.last().push(c)) =~= done.push(
                    s.subrange(start as int, i + 1),
                ));
            }
        }
        i += 1;
    }
    assert(s.take(n as int) =~= s);
    let ghost part = s.subrange(start as int, n as int);
    assert(done.push(part).drop_last() =~= done);
    if start < n {
        let piece = String::from_str(relative.substring_char(start, n));
        let ghost prior = out@;
        out.push(piece);
        assert(out@.map_values(|p: String| p@) =~= prior.map_values(|p: String| p@).push(part));
    }
    out
}

/// The first name that equals `part` up to ASCII case.
pub fn find_name_ignore_case(names: &Vec<String>, part: &str) -> (r: Option<usize>)
    ensures
        match r {
            Some(i) => {
                &&& i < names@.len()
                &&& eq_ignore_ascii_case(names@[i as int]@, part@)
                &&& forall|j: int| 0 <= j < i ==> !eq_ignore_ascii_case(names@[j]@, part@)
            },
            None => forall|j: int| 0 <= j < names@.len() ==> !eq_ignore_ascii_case(names@[j]@, part@),
        },
{
    let mut i: usize = 0;
    while i < names.len()
        invariant
            i <= names@.len(),
            forall|j: int| 0 <= j < i ==> !eq_ignore_ascii_case(names@[j]@, part@),
        decreases names@.len() - i,
    {
        if str_eq_ignore_ascii_case(names[i].as_str(), part) {
            return Some(i);
        }
        i += 1;
    }
    None
}

} // verus!
