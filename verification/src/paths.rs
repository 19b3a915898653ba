//! File-system paths as text, with the meaning that `std::path` gives them on Unix.

use vstd::prelude::*;
use crate::text::{append_chars, chars_of, push_char, string_from_chars};

verus! {

/// Whether `p` starts at the root (`Path::is_absolute` on Unix).
pub open spec fn is_absolute_spec(p: Seq<char>) -> bool {
    p.len() > 0 && p[0] == '/'
}

/// `base.join(name)`: `name` replaces `base` when absolute; otherwise one separator
/// stands between them unless `base` is empty or already ends with one.
pub open spec fn join_spec(base: Seq<char>, name: Seq<char>) -> Seq<char> {
    if is_absolute_spec(name) {
        name
    } else if base.len() == 0 {
        name
    } else if base.last() == '/' {
        base + name
    } else {
        base + seq!['/'] + name
    }
}

/// Whether the path `p` starts at the root.
pub fn is_absolute(p: &str) -> (r: bool)
    ensures
        r == is_absolute_spec(p@),
{
    let cs = chars_of(p);
    cs.len() > 0 && cs[0] == '/'
}

/// `Path::new(base).join(name)`, as text.
pub fn join(base: &str, name: &str) -> (out: String)
    ensures
        out@ == join_spec(base@, name@),
{
    let b = chars_of(base);
    let n = chars_of(name);
    if n.len() > 0 && n[0] == '/' {
        return string_from_chars(&n);
    }
    let mut out = string_from_chars(&b);
    if b.len() > 0 && b[b.len() - 1] != '/' {
        push_char(&mut out, '/');
    }
    append_chars(&mut out, &n);
    out
}

/// `p` without the trailing separators and trailing `.` components that
/// `Path::components` ignores.
pub open spec fn strip_tail(p: Seq<char>) -> Seq<char>
    decreases p.len(),
{
    if p.len() == 0 {
        p
    } else if p.last() == '/' {
        strip_tail(p.drop_last())
    } else if p.last() == '.' && (p.len() == 1 || p[p.len() - 2] == '/') {
        strip_tail(p.drop_last())
    } else {
        p
    }
}

/// The index just after the last separator of `p`, or 0 when it has none.
pub open spec fn last_sep_end(p: Seq<char>) -> int
    decreases p.len(),
{
    if p.len() == 0 {
        0
    } else if p.last() == '/' {
        p.len() as int
    } else {
        last_sep_end(p.drop_last())
    }
}

/// The final component of `p` (`Path::file_name`): `None` when the path ends
/// in `..` or has no normal component.
pub open spec fn file_name_spec(p: Seq<char>) -> Option<Seq<char>> {
    let q = strip_tail(p);
    let last = q.subrange(last_sep_end(q), q.len() as int);
    if last.len() == 0 || last == seq!['.', '.'] {
        None
    } else {
        Some(last)
    }
}

/// The index of the last `.` in `s`, if any.
pub open spec fn last_dot(s: Seq<char>) -> Option<int>
    decreases s.len(),
{
    if s.len() == 0 {
        None
    } else if s.last() == '.' {
        Some(s.len() - 1)
    } else {
        last_dot(s.drop_last())
    }
}

/// The extension of the file name of `p` (`Path::extension`): the text after
/// the last `.`, unless the name has no `.` or only a leading one.
pub open spec fn extension_spec(p: Seq<char>) -> Option<Seq<char>> {
    match file_name_spec(p) {
        None => None,
        Some(n) => match last_dot(n) {
            None => None,
            Some(i) => if i == 0 {
                None
            } else {
                Some(n.subrange(i + 1, n.len() as int))
            },
        },
    }
}

proof fn lemma_strip_tail_prefix(p: Seq<char>)
    ensures
        strip_tail(p).len() <= p.len(),
        strip_tail(p) == p.subrange(0, strip_tail(p).len() as int),
    decreases p.len(),
{
    if p.len() > 0 && (p.last() == '/' || (p.last() == '.' && (p.len() == 1 || p[p.len() - 2]
        == '/'))) {
        lemma_strip_tail_prefix(p.drop_last());
        let q = strip_tail(p);
        assert(p.drop_last().subrange(0, q.len() as int) =~= p.subrange(0, q.len() as int));
    } else {
        assert(p.subrange(0, p.len() as int) =~= p);
    }
}

/// The length of `strip_tail(p)`.
fn strip_tail_len(p: &[char]) -> (n: usize)
    ensures
        n == strip_tail(p@).len(),
{
    let mut n = p.len();
    assert(p@.subrange(0, n as int) =~= p@);
    while n > 0 && (p[n - 1] == '/' || (p[n - 1] == '.' && (n == 1 || p[n - 2] == '/')))
        invariant
            n <= p.len(),
            strip_tail(p@) == strip_tail(p@.subrange(0, n as int)),
        decreases n,
    {
        let ghost q = p@.subrange(0, n as int);
        assert(q.drop_last() =~= p@.subrange(0, n - 1));
        n -= 1;
    }
    proof {
        lemma_strip_tail_prefix(p@);
    }
    n
}

/// The final component of the path `p` (`Path::file_name`).
pub fn file_name(p: &str) -> (out: Option<String>)
    ensures
        match file_name_spec(p@) {
            None => out is None,
            Some(n) => out matches Some(o) && o@ == n,
        },
{
    let cs = chars_of(p);
    let n = strip_tail_len(&cs);
    let ghost q = strip_tail(p@);
    proof {
        lemma_strip_tail_prefix(p@);
    }
    assert(q =~= cs@.subrange(0, n as int));
    assert(q.subrange(0, n as int) =~= q);
    let mut k = n;
    while k > 0 && cs[k - 1] != '/'
        invariant
            k <= n,
            n <= cs.len(),
            q == cs@.subrange(0, n as int),
            last_sep_end(q) == last_sep_end(q.subrange(0, k as int)),
        decreases k,
    {
        assert(q.subrange(0, k as int).drop_last() =~= q.subrange(0, k - 1));
        k -= 1;
    }
    assert(q.subrange(0, k as int) =~= q.subrange(0, k as int));
    assert(last_sep_end(q) == k as int);
    let mut last: Vec<char> = Vec::new();
    let mut i = k;
    while i < n
        invariant
            k <= i <= n,
            n <= cs.len(),
            last@ == cs@.subrange(k as int, i as int),
        decreases n - i,
    {
        last.push(cs[i]);
        i += 1;
    }
    assert(last@ =~= q.subrange(k as int, q.len() as int));
    if last.len() == 0 || (last.len() == 2 && last[0] == '.' && last[1] == '.') {
        assert(last.len() == 2 ==> last@ =~= seq!['.', '.']);
        None
    } else {
        assert(last@ != seq!['.', '.']);
        Some(string_from_chars(&last))
    }
}

/// The extension of the path `p` (`Path::extension`).
pub fn extension(p: &str) -> (out: Option<String>)
    ensures
        match extension_spec(p@) {
            None => out is None,
            Some(e) => out matches Some(o) && o@ == e,
        },
{
    match file_name(p) {
        None => None,
        Some(name) => {
            let cs = chars_of(name.as_str());
            let mut k = cs.len();
            assert(cs@.subrange(0, k as int) =~= cs@);
            while k > 0 && cs[k - 1] != '.'
                invariant
                    k <= cs.len(),
                    last_dot(cs@) == last_dot(cs@.subrange(0, k as int)),
                decreases k,
            {
                assert(cs@.subrange(0, k as int).drop_last() =~= cs@.subrange(0, k - 1));
                k -= 1;
            }
            if k <= 1 {
                None
            } else {
                let mut e: Vec<char> = Vec::new();
                let mut i = k;
                while i < cs.len()
                    invariant
                        k <= i <= cs.len(),
                        e@ == cs@.subrange(k as int, i as int),
                    decreases cs.len() - i,
                {
                    e.push(cs[i]);
                    i += 1;
                }
                Some(string_from_chars(&e))
            }
        },
    }
}

/// The path `p` without the trailing separators and `.` components that do
/// not change what it names.
pub fn without_tail(p: &str) -> (r: String)
    ensures
        r@ == strip_tail(p@),
{
    let cs = chars_of(p);
    let n = strip_tail_len(&cs);
    proof {
        lemma_strip_tail_prefix(p@);
    }
    let mut out: Vec<char> = Vec::new();
    let mut i: usize = 0;
    while i < n
        invariant
            i <= n <= cs.len(),
            out@ == cs@.subrange(0, i as int),
        decreases n - i,
    {
        out.push(cs[i]);
        i += 1;
    }
    string_from_chars(&out)
}

} // verus!