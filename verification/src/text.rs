//! Character-level helpers shared by the rest of the library.

use vstd::prelude::*;

verus! {

/// Appends one character to a `String` (`String::push`).
#[verifier::external_body]
pub(crate) fn push_char(s: &mut String, c: char)
    ensures
        final(s)@ == old(s)@.push(c),
{
    s.push(c);
}

/// Two pieces of text put together.
pub fn concat(a: &str, b: &str) -> (r: String)
    ensures
        r@ == a@ + b@,
{
    let mut r = String::new();
    append_str(&mut r, a);
    append_str(&mut r, b);
    r
}

/// The characters of `s`, in order.
pub fn chars_of(s: &str) -> (out: Vec<char>)
    ensures
        out@ == s@,
{
    let mut out: Vec<char> = Vec::new();
    let mut it = s.chars();
    loop
        invariant
            out@ + vstd::std_specs::iter::IteratorSpec::remaining(&it) == s@,
            vstd::std_specs::iter::IteratorSpec::decrease(&it) is Some,
        ensures
            out@ == s@,
        decreases vstd::std_specs::iter::IteratorSpec::decrease(&it)->0,
    {
        match it.next() {
            Some(c) => { out.push(c); }
            None => { break; }
        }
    }
    out
}

/// The `String` whose characters are `cs`.
pub fn string_from_chars(cs: &[char]) -> (s: String)
    ensures
        s@ == cs@,
{
    let mut s = String::new();
    let mut i: usize = 0;
    while i < cs.len()
        invariant
            i <= cs.len(),
            s@ == cs@.subrange(0, i as int),
        decreases cs.len() - i,
    {
        push_char(&mut s, cs[i]);
        i += 1;
    }
    s
}


/// Appends the characters of `t` to `out`.
pub fn append_str(out: &mut String, t: &str)
    ensures
        final(out)@ == old(out)@ + t@,
{
    let cs = chars_of(t);
    append_chars(out, &cs);
}

/// Appends the characters `cs` to `out`.
pub fn append_chars(out: &mut String, cs: &[char])
    ensures
        final(out)@ == old(out)@ + cs@,
{
    let ghost start = out@;
    let mut i: usize = 0;
    while i < cs.len()
        invariant
            i <= cs.len(),
            out@ == start + cs@.subrange(0, i as int),
        decreases cs.len() - i,
    {
        push_char(out, cs[i]);
        i += 1;
        assert(cs@.subrange(0, i as int) == cs@.subrange(0, i - 1).push(cs@[i - 1]));
    }
    assert(cs@.subrange(0, cs@.len() as int) == cs@);
}

/// Whether two character sequences are equal.
pub fn chars_equal(a: &[char], b: &[char]) -> (r: bool)
    ensures
        r == (a@ == b@),
{
    if a.len() != b.len() {
        return false;
    }
    let mut i: usize = 0;
    while i < a.len()
        invariant
            i <= a.len(),
            a.len() == b.len(),
            forall|j: int| 0 <= j < i ==> a@[j] == b@[j],
        decreases a.len() - i,
    {
        if a[i] != b[i] {
            return false;
        }
        i += 1;
    }
    assert(a@ =~= b@);
    true
}

/// Whether two strings hold the same characters.
pub fn str_equal(a: &str, b: &str) -> (r: bool)
    ensures
        r == (a@ == b@),
{
    let ca = chars_of(a);
    let cb = chars_of(b);
    chars_equal(&ca, &cb)
}

/// `s` without the prefix `p`, when `s` starts with `p` (`str::strip_prefix`).
pub open spec fn strip_prefix_spec(s: Seq<char>, p: Seq<char>) -> Option<Seq<char>> {
    if p.len() <= s.len() && s.subrange(0, p.len() as int) == p {
        Some(s.subrange(p.len() as int, s.len() as int))
    } else {
        None
    }
}

/// `s` without the prefix `p`, or `None` when `s` does not start with `p`.
pub fn strip_prefix(s: &str, p: &str) -> (r: Option<String>)
    ensures
        match strip_prefix_spec(s@, p@) {
            None => r is None,
            Some(t) => r matches Some(u) && u@ == t,
        },
{
    let cs = chars_of(s);
    let cp = chars_of(p);
    if cp.len() > cs.len() {
        return None;
    }
    let mut i: usize = 0;
    while i < cp.len()
        invariant
            i <= cp.len() <= cs.len(),
            cs@ == s@,
            cp@ == p@,
            forall|j: int| 0 <= j < i ==> cs@[j] == cp@[j],
        decreases cp.len() - i,
    {
        if cs[i] != cp[i] {
            assert(cs@.subrange(0, cp@.len() as int)[i as int] != cp@[i as int]);
            assert(cs@.subrange(0, cp@.len() as int) != cp@);
            return None;
        }
        i += 1;
    }
    assert(cs@.subrange(0, cp@.len() as int) =~= cp@);
    let mut out = String::new();
    let mut k = cp.len();
    while k < cs.len()
        invariant
            cp.len() <= k <= cs.len(),
            out@ == cs@.subrange(cp@.len() as int, k as int),
        decreases cs.len() - k,
    {
        push_char(&mut out, cs[k]);
        k += 1;
        assert(out@ =~= cs@.subrange(cp@.len() as int, k as int));
    }
    Some(out)
}

/// `a <= b` in the order of `str`: lexicographic on the code points, a prefix
/// first.
pub open spec fn lex_le(a: Seq<char>, b: Seq<char>) -> bool
    decreases a.len(),
{
    if a.len() == 0 {
        true
    } else if b.len() == 0 {
        false
    } else if a[0] != b[0] {
        (a[0] as int) < (b[0] as int)
    } else {
        lex_le(a.drop_first(), b.drop_first())
    }
}

/// Any two texts are ordered one way or the other.
pub proof fn lemma_lex_total(a: Seq<char>, b: Seq<char>)
    ensures
        lex_le(a, b) || lex_le(b, a),
    decreases a.len(),
{
    if a.len() > 0 && b.len() > 0 {
        if a[0] == b[0] {
            lemma_lex_total(a.drop_first(), b.drop_first());
        } else {
            assert((a[0] as int) != (b[0] as int));
        }
    }
}

/// The order of texts is transitive.
pub proof fn lemma_lex_transitive(a: Seq<char>, b: Seq<char>, c: Seq<char>)
    requires
        lex_le(a, b),
        lex_le(b, c),
    ensures
        lex_le(a, c),
    decreases a.len(),
{
    if a.len() > 0 && b.len() > 0 && c.len() > 0 && a[0] == b[0] && b[0] == c[0] {
        lemma_lex_transitive(a.drop_first(), b.drop_first(), c.drop_first());
    }
}

/// Whether `a <= b` in the order of `str`.
pub fn chars_le(a: &[char], b: &[char]) -> (r: bool)
    ensures
        r == lex_le(a@, b@),
{
    let mut i: usize = 0;
    assert(a@.subrange(0, a@.len() as int) =~= a@);
    assert(b@.subrange(0, b@.len() as int) =~= b@);
    while i < a.len() && i < b.len() && a[i] == b[i]
        invariant
            i <= a.len(),
            i <= b.len(),
            lex_le(a@, b@) == lex_le(a@.subrange(i as int, a@.len() as int), b@.subrange(i as int, b@.len() as int)),
        decreases a.len() - i,
    {
        let ghost sa = a@.subrange(i as int, a@.len() as int);
        let ghost sb = b@.subrange(i as int, b@.len() as int);
        assert(sa.drop_first() =~= a@.subrange(i + 1, a@.len() as int));
        assert(sb.drop_first() =~= b@.subrange(i + 1, b@.len() as int));
        i += 1;
    }
    let ghost sa = a@.subrange(i as int, a@.len() as int);
    let ghost sb = b@.subrange(i as int, b@.len() as int);
    if i == a.len() {
        assert(sa.len() == 0);
        return true;
    }
    if i == b.len() {
        return false;
    }
    assert(sa[0] == a@[i as int] && sb[0] == b@[i as int]);
    a[i] < b[i]
}

/// The text of `s` before its first `c`, or all of it (`s.split(c).next()`).
pub open spec fn before_first(s: Seq<char>, c: char) -> Seq<char>
    decreases s.len(),
{
    if s.len() == 0 || s[0] == c {
        Seq::empty()
    } else {
        seq![s[0]] + before_first(s.drop_first(), c)
    }
}

/// The text of `s` before its first `c`, or all of it.
pub fn prefix_before(s: &str, c: char) -> (r: String)
    ensures
        r@ == before_first(s@, c),
{
    let cs = chars_of(s);
    let mut out = String::new();
    let mut i: usize = 0;
    while i < cs.len() && cs[i] != c
        invariant
            i <= cs.len(),
            forall|k: int| 0 <= k < i ==> cs@[k] != c,
            out@ == cs@.subrange(0, i as int),
        decreases cs.len() - i,
    {
        push_char(&mut out, cs[i]);
        i += 1;
        assert(out@ =~= cs@.subrange(0, i as int));
    }
    proof {
        lemma_before_first(cs@, c, i as int);
    }
    out
}

proof fn lemma_before_first(s: Seq<char>, c: char, k: int)
    requires
        0 <= k <= s.len(),
        forall|i: int| 0 <= i < k ==> s[i] != c,
        k < s.len() ==> s[k] == c,
    ensures
        before_first(s, c) == s.subrange(0, k),
    decreases k,
{
    if k == 0 {
        assert(s.subrange(0, 0) =~= Seq::<char>::empty());
    } else {
        let d = s.drop_first();
        assert forall|i: int| 0 <= i < k - 1 implies d[i] != c by {
            assert(d[i] == s[i + 1]);
        }
        if k < s.len() {
            assert(d[k - 1] == s[k]);
        }
        lemma_before_first(d, c, k - 1);
        assert(seq![s[0]] + d.subrange(0, k - 1) =~= s.subrange(0, k));
    }
}

/// `line` without one carriage return at its end.
pub open spec fn strip_cr(line: Seq<char>) -> Seq<char> {
    if line.len() > 0 && line.last() == '\r' {
        line.drop_last()
    } else {
        line
    }
}

/// The lines of `s` after the unfinished line `cur`, as `str::lines` splits
/// them: at `\n`, each line without a `\r` before its `\n`, and no empty
/// line after a final `\n`.
pub open spec fn lines_from(s: Seq<char>, cur: Seq<char>) -> Seq<Seq<char>>
    decreases s.len(),
{
    if s.len() == 0 {
        if cur.len() == 0 {
            Seq::empty()
        } else {
            seq![cur]
        }
    } else if s[0] == '\n' {
        seq![strip_cr(cur)] + lines_from(s.drop_first(), Seq::empty())
    } else {
        lines_from(s.drop_first(), cur.push(s[0]))
    }
}

/// The lines of `s` (`str::lines`).
pub open spec fn lines_spec(s: Seq<char>) -> Seq<Seq<char>> {
    lines_from(s, Seq::empty())
}

/// The lines of `s`, joined with `\n` between them.
pub open spec fn join_lines(ls: Seq<Seq<char>>) -> Seq<char>
    decreases ls.len(),
{
    if ls.len() == 0 {
        Seq::empty()
    } else if ls.len() == 1 {
        ls[0]
    } else {
        join_lines(ls.drop_last()) + seq!['\n'] + ls.last()
    }
}

/// The lines of `s` (`str::lines`).
pub fn split_lines(s: &str) -> (r: Vec<Vec<char>>)
    ensures
        r@.map_values(|l: Vec<char>| l@) == lines_spec(s@),
{
    let cs = chars_of(s);
    let mut out: Vec<Vec<char>> = Vec::new();
    let mut cur: Vec<char> = Vec::new();
    let mut i: usize = 0;
    assert(cs@.subrange(0, cs@.len() as int) =~= cs@);
    assert(out@.map_values(|l: Vec<char>| l@) + lines_from(cs@, cur@) =~= lines_spec(s@));
    while i < cs.len()
        invariant
            i <= cs.len(),
            cs@ == s@,
            out@.map_values(|l: Vec<char>| l@) + lines_from(cs@.subrange(i as int, cs@.len() as int), cur@) == lines_spec(s@),
        decreases cs.len() - i,
    {
        let ghost rest = cs@.subrange(i as int, cs@.len() as int);
        assert(rest.drop_first() =~= cs@.subrange(i + 1, cs@.len() as int));
        assert(rest[0] == cs@[i as int]);
        let ghost before = out@.map_values(|l: Vec<char>| l@);
        if cs[i] == '\n' {
            let mut line = cur;
            if line.len() > 0 && line[line.len() - 1] == '\r' {
                line.pop();
                assert(line@ =~= strip_cr(cur@));
            }
            let ghost lv = line@;
            out.push(line);
            cur = Vec::new();
            proof {
                assert(out@.map_values(|l: Vec<char>| l@) =~= before.push(lv));
                assert(before.push(lv) + lines_from(cs@.subrange(i + 1, cs@.len() as int), cur@) =~= before + (seq![lv] + lines_from(cs@.subrange(i + 1, cs@.len() as int), Seq::<char>::empty())));
            }
        } else {
            cur.push(cs[i]);
        }
        i += 1;
    }
    let ghost before = out@.map_values(|l: Vec<char>| l@);
    assert(cs@.subrange(cs@.len() as int, cs@.len() as int) =~= Seq::<char>::empty());
    if cur.len() > 0 {
        let ghost cv = cur@;
        out.push(cur);
        assert(out@.map_values(|l: Vec<char>| l@) =~= before.push(cv));
        assert(before.push(cv) =~= before + seq![cv]);
    } else {
        assert(before + Seq::<Seq<char>>::empty() =~= before);
    }
    out
}

/// The lines `ls`, joined with `\n` between them.
pub fn join_char_lines(ls: &[Vec<char>]) -> (r: String)
    ensures
        r@ == join_lines(ls@.map_values(|l: Vec<char>| l@)),
{
    let ghost views = ls@.map_values(|l: Vec<char>| l@);
    let mut out = String::new();
    let mut i: usize = 0;
    while i < ls.len()
        invariant
            i <= ls.len(),
            views == ls@.map_values(|l: Vec<char>| l@),
            out@ == join_lines(views.subrange(0, i as int)),
        decreases ls.len() - i,
    {
        let ghost pre = views.subrange(0, i + 1);
        assert(pre.drop_last() =~= views.subrange(0, i as int));
        if i > 0 {
            push_char(&mut out, '\n');
        }
        append_chars(&mut out, ls[i].as_slice());
        proof {
            if i == 0 {
                assert(join_lines(pre) == pre[0]);
                assert(out@ =~= pre[0]);
            }
        }
        i += 1;
    }
    assert(views.subrange(0, ls.len() as int) =~= views);
    out
}

/// The Unicode `White_Space` property, which `char::is_whitespace` tests.
pub open spec fn is_white_space(c: char) -> bool {
    let u = c as u32;
    ||| 0x09 <= u <= 0x0D
    ||| u == 0x20
    ||| u == 0x85
    ||| u == 0xA0
    ||| u == 0x1680
    ||| 0x2000 <= u <= 0x200A
    ||| u == 0x2028
    ||| u == 0x2029
    ||| u == 0x202F
    ||| u == 0x205F
    ||| u == 0x3000
}

/// Whether `c` is white space in the Unicode sense.
pub fn is_whitespace(c: char) -> (r: bool)
    ensures
        r == is_white_space(c),
{
    let u = c as u32;
    (0x09 <= u && u <= 0x0D) || u == 0x20 || u == 0x85 || u == 0xA0 || u == 0x1680 || (0x2000
        <= u && u <= 0x200A) || u == 0x2028 || u == 0x2029 || u == 0x202F || u == 0x205F || u
        == 0x3000
}

/// `s` without its leading white space.
pub open spec fn trim_start(s: Seq<char>) -> Seq<char>
    decreases s.len(),
{
    if s.len() > 0 && is_white_space(s[0]) {
        trim_start(s.drop_first())
    } else {
        s
    }
}

/// `s` without its trailing white space.
pub open spec fn trim_end(s: Seq<char>) -> Seq<char>
    decreases s.len(),
{
    if s.len() > 0 && is_white_space(s.last()) {
        trim_end(s.drop_last())
    } else {
        s
    }
}

/// `s` without leading and trailing white space (`str::trim`).
pub open spec fn trim(s: Seq<char>) -> Seq<char> {
    trim_end(trim_start(s))
}

/// Whether every character of `s` is white space.
pub open spec fn all_white(s: Seq<char>) -> bool {
    forall|i: int| 0 <= i < s.len() ==> is_white_space(#[trigger] s[i])
}

proof fn lemma_trim_start_suffix(s: Seq<char>)
    ensures
        ({
            let t = trim_start(s);
            &&& t.len() <= s.len()
            &&& t == s.subrange(s.len() - t.len(), s.len() as int)
            &&& all_white(s.subrange(0, s.len() - t.len()))
            &&& (t.len() > 0 ==> !is_white_space(t[0]))
        }),
    decreases s.len(),
{
    if s.len() > 0 && is_white_space(s[0]) {
        lemma_trim_start_suffix(s.drop_first());
        let t = trim_start(s);
        let d = s.drop_first();
        assert(d.subrange(d.len() - t.len(), d.len() as int) =~= s.subrange(
            s.len() - t.len(),
            s.len() as int,
        ));
        assert forall|i: int| 0 <= i < s.len() - t.len() implies is_white_space(
            #[trigger] s.subrange(0, s.len() - t.len())[i],
        ) by {
            if i > 0 {
                assert(s.subrange(0, s.len() - t.len())[i] == d.subrange(
                    0,
                    d.len() - t.len(),
                )[i - 1]);
            }
        }
    } else {
        assert(s.subrange(0, 0) =~= Seq::<char>::empty());
        assert(s.subrange(0, s.len() as int) =~= s);
    }
}

proof fn lemma_trim_end_prefix(s: Seq<char>)
    ensures
        ({
            let t = trim_end(s);
            &&& t.len() <= s.len()
            &&& t == s.subrange(0, t.len() as int)
            &&& all_white(s.subrange(t.len() as int, s.len() as int))
            &&& (t.len() > 0 ==> !is_white_space(t.last()))
        }),
    decreases s.len(),
{
    if s.len() > 0 && is_white_space(s.last()) {
        lemma_trim_end_prefix(s.drop_last());
        let t = trim_end(s);
        let d = s.drop_last();
        assert(d.subrange(0, t.len() as int) =~= s.subrange(0, t.len() as int));
        assert forall|i: int| 0 <= i < s.len() - t.len() implies is_white_space(
            #[trigger] s.subrange(t.len() as int, s.len() as int)[i],
        ) by {
            if i < s.len() - t.len() - 1 {
                assert(s.subrange(t.len() as int, s.len() as int)[i] == d.subrange(
                    t.len() as int,
                    d.len() as int,
                )[i]);
            }
        }
    } else {
        assert(s.subrange(s.len() as int, s.len() as int) =~= Seq::<char>::empty());
        assert(s.subrange(0, s.len() as int) =~= s);
    }
}

/// A trimmed sequence is empty exactly when every character is white space.
pub proof fn lemma_trim_empty_iff_all_white(s: Seq<char>)
    ensures
        (trim(s).len() == 0) == all_white(s),
{
    lemma_trim_start_suffix(s);
    let t = trim_start(s);
    lemma_trim_end_prefix(t);
    if trim(s).len() == 0 {
        if t.len() > 0 {
            assert(t.subrange(0, t.len() as int) =~= t);
            assert forall|i: int| 0 <= i < s.len() implies is_white_space(#[trigger] s[i]) by {
                if i < s.len() - t.len() {
                    assert(s[i] == s.subrange(0, s.len() - t.len())[i]);
                } else {
                    assert(s[i] == t[i - (s.len() - t.len())]);
                    assert(t[i - (s.len() - t.len())] == t.subrange(0, t.len() as int)[i - (
                    s.len() - t.len())]);
                }
            }
        } else {
            assert forall|i: int| 0 <= i < s.len() implies is_white_space(#[trigger] s[i]) by {
                assert(s[i] == s.subrange(0, s.len() - t.len())[i]);
            }
        }
    } else {
        let r = trim(s);
        assert(r[0] == t[0]);
        assert(t[0] == s[s.len() - t.len()]);
    }
}

/// Trimming twice is trimming once.
pub proof fn lemma_trim_idempotent(s: Seq<char>)
    ensures
        trim(trim(s)) == trim(s),
{
    let t = trim_start(s);
    let r = trim(s);
    lemma_trim_start_suffix(s);
    lemma_trim_end_prefix(t);
    if r.len() == 0 {
        assert(trim_start(r) == r);
        assert(trim_end(r) == r);
    } else {
        assert(r[0] == t[0]);
        lemma_trim_start_skip(r, 0);
        assert(r.subrange(0, r.len() as int) =~= r);
        lemma_trim_end_skip(r, r.len() as int);
    }
}

/// Whether `part` occurs in `text` at the position `i`.
pub open spec fn occurs_at(part: Seq<char>, text: Seq<char>, i: int) -> bool {
    0 <= i && i + part.len() <= text.len() && text.subrange(i, i + part.len()) == part
}

/// Whether `part` occurs somewhere in `text`.
pub open spec fn occurs_in(part: Seq<char>, text: Seq<char>) -> bool {
    exists|i: int| #[trigger] occurs_at(part, text, i)
}

/// A text made of `before`, `part` and `after` holds `part`.
pub proof fn lemma_occurs_between(before: Seq<char>, part: Seq<char>, after: Seq<char>)
    ensures
        occurs_in(part, before + part + after),
{
    let t = before + part + after;
    assert(t.subrange(before.len() as int, before.len() + part.len() as int) =~= part);
    assert(occurs_at(part, t, before.len() as int));
}

/// The index of the first non-white character of `s` at or after `from`, or `s.len()`.
fn skip_white_from(s: &[char], from: usize) -> (k: usize)
    requires
        from <= s.len(),
    ensures
        from <= k <= s.len(),
        forall|i: int| from <= i < k ==> is_white_space(#[trigger] s@[i]),
        k < s.len() ==> !is_white_space(s@[k as int]),
{
    let mut k = from;
    while k < s.len() && is_whitespace(s[k])
        invariant
            from <= k <= s.len(),
            forall|i: int| from <= i < k ==> is_white_space(#[trigger] s@[i]),
        decreases s.len() - k,
    {
        k += 1;
    }
    k
}

proof fn lemma_trim_start_skip(s: Seq<char>, k: int)
    requires
        0 <= k <= s.len(),
        forall|i: int| 0 <= i < k ==> is_white_space(#[trigger] s[i]),
        k < s.len() ==> !is_white_space(s[k]),
    ensures
        trim_start(s) == s.subrange(k, s.len() as int),
    decreases k,
{
    if k == 0 {
        assert(s.subrange(0, s.len() as int) =~= s);
    } else {
        let d = s.drop_first();
        assert forall|i: int| 0 <= i < k - 1 implies is_white_space(#[trigger] d[i]) by {
            assert(d[i] == s[i + 1]);
        }
        lemma_trim_start_skip(d, k - 1);
        assert(d.subrange(k - 1, d.len() as int) =~= s.subrange(k, s.len() as int));
    }
}

proof fn lemma_trim_end_skip(s: Seq<char>, k: int)
    requires
        0 <= k <= s.len(),
        forall|i: int| k <= i < s.len() ==> is_white_space(#[trigger] s[i]),
        k > 0 ==> !is_white_space(s[k - 1]),
    ensures
        trim_end(s) == s.subrange(0, k),
    decreases s.len() - k,
{
    if k == s.len() {
        assert(s.subrange(0, s.len() as int) =~= s);
    } else {
        let d = s.drop_last();
        assert forall|i: int| k <= i < d.len() implies is_white_space(#[trigger] d[i]) by {
            assert(d[i] == s[i]);
        }
        lemma_trim_end_skip(d, k);
        assert(d.subrange(0, k) =~= s.subrange(0, k));
    }
}

/// The characters of `s` without leading and trailing white space.
pub fn trim_chars(s: &[char]) -> (out: Vec<char>)
    ensures
        out@ == trim(s@),
{
    let a = skip_white_from(s, 0);
    proof {
        lemma_trim_start_skip(s@, a as int);
    }
    let mut b = s.len();
    while b > a && is_whitespace(s[b - 1])
        invariant
            a <= b <= s.len(),
            forall|i: int| b <= i < s.len() ==> is_white_space(#[trigger] s@[i]),
        decreases b,
    {
        b -= 1;
    }
    let mut out: Vec<char> = Vec::new();
    let mut i = a;
    while i < b
        invariant
            a <= i <= b,
            b <= s.len(),
            out@ == s@.subrange(a as int, i as int),
        decreases b - i,
    {
        out.push(s[i]);
        i += 1;
    }
    proof {
        let t = s@.subrange(a as int, s@.len() as int);
        assert forall|j: int| b - a <= j < t.len() implies is_white_space(#[trigger] t[j]) by {
            assert(t[j] == s@[j + a]);
        }
        if b > a {
            assert(t[b - a - 1] == s@[b - 1]);
        }
        lemma_trim_end_skip(t, b - a);
        assert(t.subrange(0, b - a) =~= s@.subrange(a as int, b as int));
    }
    out
}

/// Whether `s` holds only white space (`s.trim().is_empty()`).
pub fn is_blank(s: &str) -> (r: bool)
    ensures
        r == (trim(s@).len() == 0),
        r == all_white(s@),
{
    let cs = chars_of(s);
    let mut i: usize = 0;
    while i < cs.len()
        invariant
            i <= cs.len(),
            cs@ == s@,
            forall|j: int| 0 <= j < i ==> is_white_space(#[trigger] s@[j]),
        decreases cs.len() - i,
    {
        if !is_whitespace(cs[i]) {
            proof {
                lemma_trim_empty_iff_all_white(s@);
            }
            return false;
        }
        i += 1;
    }
    proof {
        lemma_trim_empty_iff_all_white(s@);
    }
    true
}

/// ASCII lower-casing of one character (`char::to_ascii_lowercase`).
pub open spec fn ascii_lower(c: char) -> char {
    if 'A' <= c <= 'Z' {
        ((c as u32) + 32) as char
    } else {
        c
    }
}

/// ASCII lower-casing of a sequence (`str::to_ascii_lowercase`).
pub open spec fn ascii_lower_seq(s: Seq<char>) -> Seq<char> {
    Seq::new(s.len(), |i: int| ascii_lower(s[i]))
}

/// The ASCII lower-case form of one character.
pub fn to_ascii_lower(c: char) -> (r: char)
    ensures
        r == ascii_lower(c),
{
    if 'A' <= c && c <= 'Z' {
        let u = (c as u32) + 32;
        assert(0x61 <= u <= 0x7A);
        char_from_ascii(u as u8)
    } else {
        c
    }
}

/// The character with the given ASCII code.
pub fn char_from_ascii(b: u8) -> (c: char)
    requires
        b < 128,
    ensures
        c as u32 == b as u32,
        c == (b as u32) as char,
{
    b as char
}

/// ASCII lower-casing of a sequence of characters.
pub fn lower_chars(s: &[char]) -> (out: Vec<char>)
    ensures
        out@ == ascii_lower_seq(s@),
{
    let mut out: Vec<char> = Vec::new();
    let mut i: usize = 0;
    while i < s.len()
        invariant
            i <= s.len(),
            out@.len() == i,
            forall|j: int| 0 <= j < i ==> out@[j] == ascii_lower(s@[j]),
        decreases s.len() - i,
    {
        out.push(to_ascii_lower(s[i]));
        i += 1;
    }
    assert(out@ =~= ascii_lower_seq(s@));
    out
}

/// The ASCII digit for `d` in `0..10`.
pub open spec fn digit_char(d: nat) -> char {
    ((d + 48) as u32) as char
}

/// The decimal notation of `n`, without sign or leading zeros.
pub open spec fn decimal(n: nat) -> Seq<char>
    decreases n,
{
    if n < 10 {
        seq![digit_char(n)]
    } else {
        decimal(n / 10).push(digit_char(n % 10))
    }
}

fn digit_of(d: u64) -> (c: char)
    requires
        d < 10,
    ensures
        c == digit_char(d as nat),
{
    char_from_ascii((d + 48) as u8)
}

/// The decimal notation of `n` (`u64::to_string`).
pub fn decimal_string(n: u64) -> (s: String)
    ensures
        s@ == decimal(n as nat),
{
    let mut digits: Vec<char> = Vec::new();
    let mut m = n;
    // digits are gathered least significant first
    let ghost mut rest: nat = n as nat;
    loop
        invariant
            m as nat == rest,
            decimal(n as nat) == decimal(rest) + reverse_chars(digits@),
        ensures
            m < 10,
            decimal(n as nat) == decimal(m as nat) + reverse_chars(digits@),
        decreases m,
    {
        if m < 10 {
            break;
        }
        let d = m % 10;
        proof {
            assert(decimal(rest) == decimal(rest / 10).push(digit_char(rest % 10)));
            assert(reverse_chars(digits@.push(digit_char(d as nat))) == seq![digit_char(d as nat)]
                + reverse_chars(digits@)) by {
                lemma_reverse_push(digits@, digit_char(d as nat));
            }
            assert(decimal(rest / 10).push(digit_char(rest % 10)) + reverse_chars(digits@)
                =~= decimal(rest / 10) + (seq![digit_char(d as nat)] + reverse_chars(digits@)));
        }
        digits.push(digit_of(d));
        m = m / 10;
        proof {
            rest = rest / 10;
        }
    }
    let mut s = String::new();
    push_char(&mut s, digit_of(m));
    let mut i = digits.len();
    while i > 0
        invariant
            i <= digits.len(),
            s@ == decimal(m as nat) + reverse_chars(digits@.subrange(i as int, digits@.len() as int)),
        decreases i,
    {
        i -= 1;
        proof {
            let a = digits@.subrange(i as int, digits@.len() as int);
            assert(a == seq![digits@[i as int]] + digits@.subrange(i + 1, digits@.len() as int));
            lemma_reverse_prepend(digits@.subrange(i + 1, digits@.len() as int), digits@[i as int]);
        }
        push_char(&mut s, digits[i]);
        proof {
            let b = digits@.subrange(i + 1, digits@.len() as int);
            assert(decimal(m as nat) + reverse_chars(b) + seq![digits@[i as int]] =~= decimal(
                m as nat,
            ) + (reverse_chars(b) + seq![digits@[i as int]]));
        }
    }
    assert(digits@.subrange(0, digits@.len() as int) =~= digits@);
    s
}

/// `s` in reverse order.
pub open spec fn reverse_chars(s: Seq<char>) -> Seq<char>
    decreases s.len(),
{
    if s.len() == 0 {
        Seq::empty()
    } else {
        reverse_chars(s.drop_first()).push(s[0])
    }
}

proof fn lemma_reverse_prepend(s: Seq<char>, c: char)
    ensures
        reverse_chars(seq![c] + s) == reverse_chars(s) + seq![c],
{
    assert((seq![c] + s).drop_first() =~= s);
    assert(reverse_chars(s).push(c) =~= reverse_chars(s) + seq![c]);
}

proof fn lemma_reverse_push(s: Seq<char>, c: char)
    ensures
        reverse_chars(s.push(c)) == seq![c] + reverse_chars(s),
    decreases s.len(),
{
    if s.len() == 0 {
        assert(s.push(c).drop_first() =~= Seq::<char>::empty());
        assert(reverse_chars(Seq::<char>::empty()) =~= Seq::<char>::empty());
        assert(reverse_chars(s) =~= Seq::<char>::empty());
        assert(seq![c] + Seq::<char>::empty() =~= seq![c]);
        assert(Seq::<char>::empty().push(c) =~= seq![c]);
    } else {
        assert(s.push(c).drop_first() =~= s.drop_first().push(c));
        lemma_reverse_push(s.drop_first(), c);
        assert(s.push(c)[0] == s[0]);
        assert((seq![c] + reverse_chars(s.drop_first())).push(s[0]) =~= seq![c] + reverse_chars(
            s.drop_first(),
        ).push(s[0]));
    }
}

/// Why a text is not a number, as `core::num::IntErrorKind` tells it.
#[derive(PartialEq, Eq, Structural, Clone, Copy, Debug)]
pub enum IntErrorKind {
    Empty,
    InvalidDigit,
    PosOverflow,
}

/// Whether `c` is an ASCII decimal digit.
pub open spec fn is_digit(c: char) -> bool {
    '0' <= c <= '9'
}

/// The value of an ASCII decimal digit.
pub open spec fn digit_value(c: char) -> nat {
    ((c as u32) - 48) as nat
}

/// Reading the digits `s` after the value `acc` already read, with `max` the largest value
/// allowed: left to right, an invalid digit or a value above `max` stops the reading.
pub open spec fn read_digits(acc: nat, s: Seq<char>, max: nat) -> Result<nat, IntErrorKind>
    decreases s.len(),
{
    if s.len() == 0 {
        Ok(acc)
    } else if !is_digit(s[0]) {
        Err(IntErrorKind::InvalidDigit)
    } else if acc * 10 + digit_value(s[0]) > max {
        Err(IntErrorKind::PosOverflow)
    } else {
        read_digits(acc * 10 + digit_value(s[0]), s.drop_first(), max)
    }
}

/// `str::parse` of an unsigned integer type whose largest value is `max`.
pub open spec fn parse_unsigned(s: Seq<char>, max: nat) -> Result<nat, IntErrorKind> {
    if s.len() == 0 {
        Err(IntErrorKind::Empty)
    } else if s.len() == 1 && (s[0] == '+' || s[0] == '-') {
        Err(IntErrorKind::InvalidDigit)
    } else if s[0] == '+' {
        read_digits(0, s.drop_first(), max)
    } else {
        read_digits(0, s, max)
    }
}

proof fn lemma_read_digits_bound(acc: nat, s: Seq<char>, max: nat)
    requires
        acc <= max,
    ensures
        read_digits(acc, s, max) matches Ok(v) ==> v <= max,
    decreases s.len(),
{
    if s.len() > 0 && is_digit(s[0]) && acc * 10 + digit_value(s[0]) <= max {
        lemma_read_digits_bound(acc * 10 + digit_value(s[0]), s.drop_first(), max);
    }
}

/// Parses `s` as `str::parse::<u64>` does.
pub fn parse_u64(s: &[char]) -> (r: Result<u64, IntErrorKind>)
    ensures
        match parse_unsigned(s@, u64::MAX as nat) {
            Ok(v) => r == Ok::<u64, IntErrorKind>(v as u64) && v <= u64::MAX,
            Err(k) => r == Err::<u64, IntErrorKind>(k),
        },
{
    parse_bounded(s, u64::MAX)
}

/// Parses `s` as `str::parse::<u32>` does.
pub fn parse_u32(s: &[char]) -> (r: Result<u32, IntErrorKind>)
    ensures
        match parse_unsigned(s@, u32::MAX as nat) {
            Ok(v) => r == Ok::<u32, IntErrorKind>(v as u32) && v <= u32::MAX,
            Err(k) => r == Err::<u32, IntErrorKind>(k),
        },
{
    match parse_bounded(s, u32::MAX as u64) {
        Ok(v) => Ok(v as u32),
        Err(k) => Err(k),
    }
}

fn parse_bounded(s: &[char], max: u64) -> (r: Result<u64, IntErrorKind>)
    requires
        max >= 9,
    ensures
        match parse_unsigned(s@, max as nat) {
            Ok(v) => r == Ok::<u64, IntErrorKind>(v as u64) && v <= max,
            Err(k) => r == Err::<u64, IntErrorKind>(k),
        },
{
    if s.len() == 0 {
        return Err(IntErrorKind::Empty);
    }
    if s.len() == 1 && (s[0] == '+' || s[0] == '-') {
        return Err(IntErrorKind::InvalidDigit);
    }
    let start: usize = if s[0] == '+' { 1 } else { 0 };
    let ghost digits = if s@[0] == '+' { s@.drop_first() } else { s@ };
    assert(digits =~= s@.subrange(start as int, s@.len() as int));
    assert(parse_unsigned(s@, max as nat) == read_digits(0, digits, max as nat));
    let mut acc: u64 = 0;
    let mut i = start;
    while i < s.len()
        invariant
            start <= i <= s.len(),
            acc <= max,
            max >= 9,
            parse_unsigned(s@, max as nat) == read_digits(
                0,
                s@.subrange(start as int, s@.len() as int),
                max as nat,
            ),
            read_digits(0, s@.subrange(start as int, s@.len() as int), max as nat) == read_digits(
                acc as nat,
                s@.subrange(i as int, s@.len() as int),
                max as nat,
            ),
        decreases s.len() - i,
    {
        let c = s[i];
        let ghost rest = s@.subrange(i as int, s@.len() as int);
        assert(rest[0] == c);
        assert(rest.drop_first() =~= s@.subrange(i + 1, s@.len() as int));
        if !('0' <= c && c <= '9') {
            assert(read_digits(acc as nat, rest, max as nat) == Err::<nat, IntErrorKind>(
                IntErrorKind::InvalidDigit,
            ));
            return Err(IntErrorKind::InvalidDigit);
        }
        let d = (c as u32 - 48) as u64;
        if acc > (max - d) / 10 {
            assert(acc * 10 + d > max) by (nonlinear_arith)
                requires
                    acc > (max - d) / 10,
                    d <= max,
            ;
            assert(read_digits(acc as nat, rest, max as nat) == Err::<nat, IntErrorKind>(
                IntErrorKind::PosOverflow,
            ));
            return Err(IntErrorKind::PosOverflow);
        }
        assert(acc * 10 + d <= max) by (nonlinear_arith)
            requires
                acc <= (max - d) / 10,
                d <= 9,
                max >= d,
        ;
        acc = acc * 10 + d;
        i += 1;
    }
    assert(s@.subrange(s@.len() as int, s@.len() as int) =~= Seq::<char>::empty());
    proof {
        lemma_read_digits_bound(0, digits, max as nat);
    }
    Ok(acc)
}

impl IntErrorKind {
    /// The text `ParseIntError` shows for the reason.
    pub open spec fn text_spec(self) -> Seq<char> {
        match self {
            IntErrorKind::Empty => "cannot parse integer from empty string"@,
            IntErrorKind::InvalidDigit => "invalid digit found in string"@,
            IntErrorKind::PosOverflow => "number too large to fit in target type"@,
        }
    }

    /// The text `ParseIntError` shows for the reason.
    pub fn text(&self) -> (r: &'static str)
        ensures
            r@ == self.text_spec(),
    {
        match self {
            IntErrorKind::Empty => "cannot parse integer from empty string",
            IntErrorKind::InvalidDigit => "invalid digit found in string",
            IntErrorKind::PosOverflow => "number too large to fit in target type",
        }
    }
}

/// What follows the first `c` in `s`; empty when `s` has none.
pub open spec fn after_first(s: Seq<char>, c: char) -> Seq<char>
    decreases s.len(),
{
    if s.len() == 0 {
        Seq::empty()
    } else if s[0] == c {
        s.drop_first()
    } else {
        after_first(s.drop_first(), c)
    }
}

/// The characters of `s` before and after its first `c` (the second part is
/// empty when `s` has none).
pub fn split_at_first(s: &[char], c: char) -> (r: (Vec<char>, Vec<char>))
    ensures
        r.0@ == before_first(s@, c),
        r.1@ == after_first(s@, c),
{
    let mut i: usize = 0;
    assert(s@.subrange(0, s@.len() as int) =~= s@);
    assert(s@.subrange(0, 0) + before_first(s@, c) =~= before_first(s@, c));
    while i < s.len() && s[i] != c
        invariant
            i <= s.len(),
            forall|k: int| 0 <= k < i ==> s@[k] != c,
            before_first(s@, c) == s@.subrange(0, i as int) + before_first(s@.subrange(i as int, s@.len() as int), c),
            after_first(s@, c) == after_first(s@.subrange(i as int, s@.len() as int), c),
        decreases s.len() - i,
    {
        let ghost rest = s@.subrange(i as int, s@.len() as int);
        assert(rest.drop_first() =~= s@.subrange(i + 1, s@.len() as int));
        assert(rest[0] == s@[i as int]);
        assert(s@.subrange(0, i as int) + (seq![rest[0]] + before_first(rest.drop_first(), c)) =~= s@.subrange(0, i + 1) + before_first(rest.drop_first(), c));
        i += 1;
    }
    let ghost rest = s@.subrange(i as int, s@.len() as int);
    let mut before: Vec<char> = Vec::new();
    let mut k: usize = 0;
    while k < i
        invariant
            k <= i <= s.len(),
            before@ == s@.subrange(0, k as int),
        decreases i - k,
    {
        before.push(s[k]);
        k += 1;
    }
    let mut after: Vec<char> = Vec::new();
    if i < s.len() {
        assert(rest[0] == c);
        let mut j = i + 1;
        while j < s.len()
            invariant
                i + 1 <= j <= s.len(),
                after@ == s@.subrange(i + 1, j as int),
            decreases s.len() - j,
        {
            after.push(s[j]);
            j += 1;
        }
        assert(rest.drop_first() =~= s@.subrange(i + 1, s@.len() as int));
        assert(before_first(rest, c) =~= Seq::<char>::empty());
        assert(s@.subrange(0, i as int) + Seq::<char>::empty() =~= s@.subrange(0, i as int));
    } else {
        assert(rest =~= Seq::<char>::empty());
        assert(s@.subrange(0, i as int) + Seq::<char>::empty() =~= s@.subrange(0, i as int));
    }
    (before, after)
}

/// Whether texts are in the order of `str`.
pub open spec fn sorted_texts(v: Seq<Seq<char>>) -> bool {
    forall|i: int, j: int| 0 <= i < j < v.len() ==> lex_le(#[trigger] v[i], #[trigger] v[j])
}

/// The texts of `v` in the order of `str` (`Vec::sort`).
pub fn sort_texts(v: &Vec<String>) -> (r: Vec<String>)
    ensures
        r@.map_values(|s: String| s@).to_multiset() == v@.map_values(|s: String| s@).to_multiset(),
        sorted_texts(r@.map_values(|s: String| s@)),
{
    let ghost all = v@.map_values(|s: String| s@);
    let mut out: Vec<String> = Vec::new();
    let mut i: usize = 0;
    assert(out@.map_values(|s: String| s@) =~= all.subrange(0, 0));
    while i < v.len()
        invariant
            i <= v.len(),
            all == v@.map_values(|s: String| s@),
            out@.map_values(|s: String| s@).to_multiset() == all.subrange(0, i as int).to_multiset(),
            sorted_texts(out@.map_values(|s: String| s@)),
        decreases v.len() - i,
    {
        let x = v[i].clone();
        let ghost xv = x@;
        assert(all.subrange(0, i + 1) =~= all.subrange(0, i as int).push(xv));
        proof {
            vstd::seq_lib::to_multiset_build(all.subrange(0, i as int), xv);
        }
        insert_text(&mut out, x);
        i += 1;
    }
    assert(all.subrange(0, v.len() as int) =~= all);
    out
}

fn insert_text(out: &mut Vec<String>, x: String)
    requires
        sorted_texts(old(out)@.map_values(|s: String| s@)),
    ensures
        final(out)@.map_values(|s: String| s@).to_multiset() == old(out)@.map_values(|s: String| s@).to_multiset().insert(x@),
        sorted_texts(final(out)@.map_values(|s: String| s@)),
{
    let ghost before = out@.map_values(|s: String| s@);
    let key = chars_of(x.as_str());
    let mut j: usize = 0;
    while j < out.len() && chars_le(chars_of(out[j].as_str()).as_slice(), key.as_slice())
        invariant
            j <= out.len(),
            before == out@.map_values(|s: String| s@),
            key@ == x@,
            forall|k: int| 0 <= k < j ==> lex_le(#[trigger] before[k], key@),
        decreases out.len() - j,
    {
        j += 1;
    }
    let ghost xv = x@;
    out.insert(j, x);
    proof {
        let after = out@.map_values(|s: String| s@);
        assert(after =~= before.insert(j as int, xv));
        vstd::seq_lib::to_multiset_insert(before, j as int, xv);
        if j < before.len() {
            lemma_lex_total(before[j as int], key@);
        }
        assert forall|a: int, b: int| 0 <= a < b < after.len() implies lex_le(#[trigger] after[a], #[trigger] after[b]) by {
            if b < j {
                assert(after[a] == before[a] && after[b] == before[b]);
            } else if b == j {
                assert(after[a] == before[a]);
            } else if a == j {
                assert(after[b] == before[b - 1]);
                if b - 1 > j {
                    assert(lex_le(before[j as int], before[b - 1]));
                    lemma_lex_transitive(key@, before[j as int], before[b - 1]);
                }
            } else if a < j {
                assert(after[a] == before[a] && after[b] == before[b - 1]);
            } else {
                assert(after[a] == before[a - 1] && after[b] == before[b - 1]);
            }
        }
    }
}

} // verus!
