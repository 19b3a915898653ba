//! The online edge-tts voices: the list offered for audition, sorted by name,
//! and the choice of the voice that speaks a preview.

use vstd::prelude::*;
use crate::text::{
    before_first, chars_le, chars_of, concat, lemma_lex_total, lemma_lex_transitive, lex_le,
    prefix_before, str_equal,
};

verus! {

broadcast use vstd::seq_lib::to_multiset_insert, vstd::seq_lib::to_multiset_build;

/// A voice as the edge-tts service lists it: the fields read from it.
#[derive(Debug)]
pub struct VoiceRecord {
    pub short_name: Option<String>,
    pub locale: Option<String>,
    pub gender: Option<String>,
    pub friendly_name: Option<String>,
}

/// An edge-tts voice for the interface.
#[derive(Debug)]
pub struct EdgeVoice {
    /// The stable technical name, such as `es-ES-AlvaroNeural`.
    pub short_name: String,
    /// The full locale, such as `es-ES`.
    pub locale: String,
    /// The short language code taken from `locale`.
    pub language: String,
    pub gender: String,
    pub friendly_name: String,
}

/// What an edge-tts voice holds, as plain values.
pub struct EdgeVoiceView {
    pub short_name: Seq<char>,
    pub locale: Seq<char>,
    pub language: Seq<char>,
    pub gender: Seq<char>,
    pub friendly_name: Seq<char>,
}

impl View for EdgeVoice {
    type V = EdgeVoiceView;

    open spec fn view(&self) -> EdgeVoiceView {
        EdgeVoiceView {
            short_name: self.short_name@,
            locale: self.locale@,
            language: self.language@,
            gender: self.gender@,
            friendly_name: self.friendly_name@,
        }
    }
}

/// The text of an optional field, empty when absent.
pub open spec fn text_or_empty(t: Option<String>) -> Seq<char> {
    match t {
        None => Seq::empty(),
        Some(s) => s@,
    }
}

/// The short language of a locale: what comes before its first `-`
/// (`es-ES` gives `es`).
pub fn lang_from_locale(locale: &str) -> (r: String)
    ensures
        r@ == before_first(locale@, '-'),
{
    prefix_before(locale, '-')
}

/// The interface's view of a listed voice: `None` when it has no short name;
/// absent fields become empty.
pub open spec fn edge_voice_spec(v: VoiceRecord) -> Option<EdgeVoiceView> {
    match v.short_name {
        None => None,
        Some(n) => Some(
            EdgeVoiceView {
                short_name: n@,
                locale: text_or_empty(v.locale),
                language: before_first(text_or_empty(v.locale), '-'),
                gender: text_or_empty(v.gender),
                friendly_name: text_or_empty(v.friendly_name),
            },
        ),
    }
}

fn owned_or_empty(t: &Option<String>) -> (r: String)
    ensures
        r@ == text_or_empty(*t),
{
    match t {
        None => String::new(),
        Some(s) => s.clone(),
    }
}

/// The interface's voice for a listed one; `None` when it has no short name.
pub fn to_edge_voice(v: &VoiceRecord) -> (r: Option<EdgeVoice>)
    ensures
        match edge_voice_spec(*v) {
            None => r is None,
            Some(e) => r matches Some(x) && x@ == e,
        },
{
    let short_name = match &v.short_name {
        None => {
            return None;
        },
        Some(n) => n.clone(),
    };
    let locale = owned_or_empty(&v.locale);
    let language = lang_from_locale(locale.as_str());
    Some(
        EdgeVoice {
            short_name,
            locale,
            language,
            gender: owned_or_empty(&v.gender),
            friendly_name: owned_or_empty(&v.friendly_name),
        },
    )
}

/// The views of the voices with a short name, in their listed order.
pub open spec fn named_voices(records: Seq<VoiceRecord>) -> Seq<EdgeVoiceView>
    decreases records.len(),
{
    if records.len() == 0 {
        Seq::empty()
    } else {
        let rest = named_voices(records.drop_last());
        match edge_voice_spec(records.last()) {
            None => rest,
            Some(e) => rest.push(e),
        }
    }
}

/// Whether voices are in order of short name.
pub open spec fn sorted_by_name(vs: Seq<EdgeVoiceView>) -> bool {
    forall|i: int, j: int| 0 <= i < j < vs.len() ==> lex_le(#[trigger] vs[i].short_name, #[trigger] vs[j].short_name)
}

/// Where a voice named `key` goes among voices sorted by name: after every
/// voice whose name is not greater, before the first whose name is.
pub open spec fn insert_pos(s: Seq<EdgeVoiceView>, key: Seq<char>) -> int
    decreases s.len(),
{
    if s.len() == 0 {
        0
    } else if !lex_le(s[0].short_name, key) {
        0
    } else {
        1 + insert_pos(s.drop_first(), key)
    }
}

/// The voices in order of short name, those with equal names in the order
/// they were given: each is placed after every earlier one whose name is not
/// greater.
pub open spec fn sort_by_name(s: Seq<EdgeVoiceView>) -> Seq<EdgeVoiceView>
    decreases s.len(),
{
    if s.len() == 0 {
        s
    } else {
        let sorted = sort_by_name(s.drop_last());
        sorted.insert(insert_pos(sorted, s.last().short_name), s.last())
    }
}

/// The position after a run of names that are not greater than `key`, ended
/// by the end or by a greater name, is where `key` goes.
proof fn lemma_insert_pos(s: Seq<EdgeVoiceView>, key: Seq<char>, j: int)
    requires
        0 <= j <= s.len(),
        forall|k: int| 0 <= k < j ==> lex_le(#[trigger] s[k].short_name, key),
        j == s.len() || !lex_le(s[j].short_name, key),
    ensures
        insert_pos(s, key) == j,
    decreases j,
{
    if j > 0 {
        assert(lex_le(s[0].short_name, key));
        let t = s.drop_first();
        assert forall|k: int| 0 <= k < j - 1 implies lex_le(#[trigger] t[k].short_name, key) by {
            assert(t[k] == s[k + 1]);
        }
        if j < s.len() {
            assert(t[j - 1] == s[j]);
        }
        lemma_insert_pos(t, key, j - 1);
    }
}

/// The voices for the interface: every listed voice that has a short name,
/// sorted by short name; voices with the same short name keep their listed
/// order.
pub fn edge_voices(records: &Vec<VoiceRecord>) -> (r: Vec<EdgeVoice>)
    ensures
        r@.map_values(|v: EdgeVoice| v@) == sort_by_name(named_voices(records@)),
        r@.map_values(|v: EdgeVoice| v@).to_multiset() == named_voices(records@).to_multiset(),
        sorted_by_name(r@.map_values(|v: EdgeVoice| v@)),
{
    let mut out: Vec<EdgeVoice> = Vec::new();
    let mut i: usize = 0;
    assert(out@.map_values(|v: EdgeVoice| v@) =~= Seq::<EdgeVoiceView>::empty());
    assert(records@.subrange(0, 0) =~= Seq::<VoiceRecord>::empty());
    assert(named_voices(records@.subrange(0, 0)) =~= Seq::<EdgeVoiceView>::empty());
    while i < records.len()
        invariant
            i <= records.len(),
            out@.map_values(|v: EdgeVoice| v@) == sort_by_name(named_voices(records@.subrange(0, i as int))),
            out@.map_values(|v: EdgeVoice| v@).to_multiset() == named_voices(records@.subrange(0, i as int)).to_multiset(),
            sorted_by_name(out@.map_values(|v: EdgeVoice| v@)),
        decreases records.len() - i,
    {
        let ghost pre = records@.subrange(0, i + 1);
        let ghost named = named_voices(records@.subrange(0, i as int));
        assert(pre.drop_last() =~= records@.subrange(0, i as int));
        assert(pre.last() == records@[i as int]);
        match to_edge_voice(&records[i]) {
            None => {},
            Some(v) => {
                let ghost e = v@;
                insert_sorted(&mut out, v);
                proof {
                    assert(named_voices(pre) == named.push(e));
                    assert(named.push(e).drop_last() =~= named);
                }
            },
        }
        i += 1;
    }
    assert(records@.subrange(0, records@.len() as int) =~= records@);
    out
}

fn insert_sorted(out: &mut Vec<EdgeVoice>, v: EdgeVoice)
    requires
        sorted_by_name(old(out)@.map_values(|x: EdgeVoice| x@)),
    ensures
        final(out)@.map_values(|x: EdgeVoice| x@) == old(out)@.map_values(|x: EdgeVoice| x@).insert(
            insert_pos(old(out)@.map_values(|x: EdgeVoice| x@), v.short_name@),
            v@,
        ),
        final(out)@.map_values(|x: EdgeVoice| x@).to_multiset() == old(out)@.map_values(|x: EdgeVoice| x@).to_multiset().insert(v@),
        sorted_by_name(final(out)@.map_values(|x: EdgeVoice| x@)),
{
    let ghost before = out@.map_values(|x: EdgeVoice| x@);
    let key = chars_of(v.short_name.as_str());
    let mut j: usize = 0;
    while j < out.len() && chars_le(chars_of(out[j].short_name.as_str()).as_slice(), key.as_slice())
        invariant
            j <= out.len(),
            before == out@.map_values(|x: EdgeVoice| x@),
            key@ == v.short_name@,
            forall|k: int| 0 <= k < j ==> lex_le(#[trigger] before[k].short_name, key@),
        decreases out.len() - j,
    {
        j += 1;
    }
    let ghost vv = v@;
    proof {
        lemma_insert_pos(before, key@, j as int);
    }
    out.insert(j, v);
    proof {
        let after = out@.map_values(|x: EdgeVoice| x@);
        assert(after =~= before.insert(j as int, vv));
        if j < before.len() {
            lemma_lex_total(before[j as int].short_name, key@);
        }
        assert forall|a: int, b: int| 0 <= a < b < after.len() implies lex_le(#[trigger] after[a].short_name, #[trigger] after[b].short_name) by {
            if b < j {
                assert(after[a] == before[a] && after[b] == before[b]);
            } else if b == j {
                assert(after[a] == before[a]);
            } else if a == j {
                assert(after[b] == before[b - 1]);
                if b - 1 > j {
                    assert(lex_le(before[j as int].short_name, before[b - 1].short_name));
                    lemma_lex_transitive(key@, before[j as int].short_name, before[b - 1].short_name);
                }
            } else if a < j {
                assert(after[a] == before[a] && after[b] == before[b - 1]);
            } else {
                assert(after[a] == before[a - 1] && after[b] == before[b - 1]);
            }
        }
    }
}

/// Whether the listed voice `r` has the short name `name`.
pub open spec fn has_short_name(r: VoiceRecord, name: Seq<char>) -> bool {
    r.short_name matches Some(m) && m@ == name
}

/// The position of the voice whose short name is `short_name` among the
/// listed voices, the first when repeated; an error naming it when none is.
pub fn find_voice(records: &Vec<VoiceRecord>, short_name: &str) -> (r: Result<usize, String>)
    ensures
        match r {
            Ok(i) => i < records.len() && has_short_name(records@[i as int], short_name@) && forall|
                k: int,
            | 0 <= k < i ==> !has_short_name(#[trigger] records@[k], short_name@),
            Err(e) => e@ == "Voz edge-tts desconocida: "@ + short_name@ && forall|k: int|
                0 <= k < records.len() ==> !has_short_name(#[trigger] records@[k], short_name@),
        },
{
    let mut i: usize = 0;
    while i < records.len()
        invariant
            i <= records.len(),
            forall|k: int| 0 <= k < i ==> !has_short_name(#[trigger] records@[k], short_name@),
        decreases records.len() - i,
    {
        match &records[i].short_name {
            Some(n) => {
                if str_equal(n.as_str(), short_name) {
                    return Ok(i);
                }
            },
            None => {},
        }
        i += 1;
    }
    Err(concat("Voz edge-tts desconocida: ", short_name))
}

/// The language of a locale is the locale's beginning, and holds no `-`.
pub proof fn lemma_language_is_locale_prefix(locale: Seq<char>)
    ensures
        before_first(locale, '-').len() <= locale.len(),
        before_first(locale, '-') == locale.subrange(0, before_first(locale, '-').len() as int),
        forall|i: int| 0 <= i < before_first(locale, '-').len() ==> #[trigger] before_first(locale, '-')[i] != '-',
    decreases locale.len(),
{
    if locale.len() > 0 && locale[0] != '-' {
        let d = locale.drop_first();
        lemma_language_is_locale_prefix(d);
        let r = before_first(locale, '-');
        assert(r =~= seq![locale[0]] + before_first(d, '-'));
        assert(r =~= locale.subrange(0, r.len() as int));
        assert forall|i: int| 0 <= i < r.len() implies #[trigger] r[i] != '-' by {
            if i > 0 {
                assert(r[i] == before_first(d, '-')[i - 1]);
            }
        }
    } else {
        assert(locale.subrange(0, 0) =~= Seq::<char>::empty());
    }
}

} // verus!
