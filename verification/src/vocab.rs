//! The saved vocabulary list and its markdown export.
//!
//! Words are deduplicated case-insensitively; removing a word drops every
//! entry that matches it case-insensitively. Loading and saving the list
//! stays with the caller, which also supplies the timestamp for a new
//! entry.

use vstd::prelude::*;

use crate::chars::{push_char, push_decimal, spec_decimal, spec_digit, str_eq};
use crate::lookup::{DefinitionModel, WordDefinitionResult};

verus! {

/// A civil timestamp broken into plain fields, minute precision.
#[derive(Clone, Copy, Debug, PartialEq, Eq, Structural)]
pub struct DateStamp {
    pub year: u32,
    pub month: u8,
    pub day: u8,
    pub hour: u8,
    pub minute: u8,
}

impl DateStamp {
    /// The ranges under which the timestamp can be rendered.
    pub open spec fn valid(self) -> bool {
        self.year <= 9999 && 1 <= self.month <= 12 && 1 <= self.day <= 31 && self.hour < 24
            && self.minute < 60
    }
}

/// A two-digit zero-padded numeral.
pub open spec fn spec_pad2(n: int) -> Seq<char> {
    seq![spec_digit(n / 10), spec_digit(n % 10)]
}

/// A four-digit zero-padded numeral.
pub open spec fn spec_pad4(n: int) -> Seq<char> {
    seq![
        spec_digit(n / 1000),
        spec_digit(n / 100 % 10),
        spec_digit(n / 10 % 10),
        spec_digit(n % 10),
    ]
}

/// A timestamp rendered as `YYYY-MM-DD HH:MM`.
pub open spec fn spec_format_date(d: DateStamp) -> Seq<char> {
    spec_pad4(d.year as int) + seq!['-'] + spec_pad2(d.month as int) + seq!['-'] + spec_pad2(
        d.day as int,
    ) + seq![' '] + spec_pad2(d.hour as int) + seq![':'] + spec_pad2(d.minute as int)
}

fn push_pad2(out: &mut String, n: u8)
    requires
        n < 100,
    ensures
        final(out)@ == old(out)@ + spec_pad2(n as int),
{
    push_char(out, crate::chars::digit_char((n / 10) as u64));
    push_char(out, crate::chars::digit_char((n % 10) as u64));
    proof {
        assert(final(out)@ =~= old(out)@ + spec_pad2(n as int));
    }
}

fn push_pad4(out: &mut String, n: u32)
    requires
        n < 10000,
    ensures
        final(out)@ == old(out)@ + spec_pad4(n as int),
{
    push_char(out, crate::chars::digit_char((n / 1000) as u64));
    push_char(out, crate::chars::digit_char((n / 100 % 10) as u64));
    push_char(out, crate::chars::digit_char((n / 10 % 10) as u64));
    push_char(out, crate::chars::digit_char((n % 10) as u64));
    proof {
        assert(final(out)@ =~= old(out)@ + spec_pad4(n as int));
    }
}

fn push_date(out: &mut String, d: &DateStamp)
    requires
        d.valid(),
    ensures
        final(out)@ == old(out)@ + spec_format_date(*d),
{
    push_pad4(out, d.year);
    push_char(out, '-');
    push_pad2(out, d.month);
    push_char(out, '-');
    push_pad2(out, d.day);
    push_char(out, ' ');
    push_pad2(out, d.hour);
    push_char(out, ':');
    push_pad2(out, d.minute);
    proof {
        assert(final(out)@ =~= old(out)@ + spec_format_date(*d));
    }
}

/// One saved word with its lookup result and the time it was added.
#[derive(Debug)]
pub struct VocabularyEntry {
    pub word: String,
    pub phonetic: Option<String>,
    pub definitions: Vec<WordDefinitionResult>,
    pub added_at: DateStamp,
}

/// The mathematical value of a `VocabularyEntry`.
pub ghost struct EntryModel {
    pub word: Seq<char>,
    pub phonetic: Option<Seq<char>>,
    pub definitions: Seq<DefinitionModel>,
    pub added_at: DateStamp,
}

impl View for VocabularyEntry {
    type V = EntryModel;

    open spec fn view(&self) -> EntryModel {
        EntryModel {
            word: self.word@,
            phonetic: match self.phonetic {
                Some(p) => Some(p@),
                None => None,
            },
            definitions: self.definitions@.map_values(|d: WordDefinitionResult| d@),
            added_at: self.added_at,
        }
    }
}

/// The views of the elements of an entry vector.
pub open spec fn entry_views(v: Seq<VocabularyEntry>) -> Seq<EntryModel> {
    v.map_values(|e: VocabularyEntry| e@)
}

impl Clone for WordDefinitionResult {
    fn clone(&self) -> (r: Self)
        ensures
            r@ == self@,
    {
        WordDefinitionResult { pos: self.pos.clone(), meanings: self.meanings.clone() }
    }
}

impl Clone for VocabularyEntry {
    fn clone(&self) -> (r: Self)
        ensures
            r@ == self@,
    {
        let mut defs: Vec<WordDefinitionResult> = Vec::new();
        let n = self.definitions.len();
        let mut i: usize = 0;
        proof {
            assert(defs@.map_values(|d: WordDefinitionResult| d@) =~= Seq::<
                DefinitionModel,
            >::empty());
        }
        while i < n
            invariant
                n == self.definitions@.len(),
                i <= n,
                defs@.map_values(|d: WordDefinitionResult| d@) == self.definitions@.subrange(
                    0,
                    i as int,
                ).map_values(|d: WordDefinitionResult| d@),
            decreases n - i,
        {
            let ghost prev = defs@;
            let c = self.definitions[i].clone();
            let ghost cv = c@;
            defs.push(c);
            i = i + 1;
            proof {
                assert(defs@.map_values(|d: WordDefinitionResult| d@) =~= prev.map_values(
                    |d: WordDefinitionResult| d@,
                ).push(cv));
                assert(self.definitions@.subrange(0, i as int).map_values(
                    |d: WordDefinitionResult| d@,
                ) =~= self.definitions@.subrange(0, i - 1).map_values(
                    |d: WordDefinitionResult| d@,
                ).push(cv));
            }
        }
        proof {
            assert(self.definitions@.subrange(0, n as int) =~= self.definitions@);
        }
        let r = VocabularyEntry {
            word: self.word.clone(),
            phonetic: match &self.phonetic {
                Some(p) => Some(p.clone()),
                None => None,
            },
            definitions: defs,
            added_at: self.added_at,
        };
        proof {
            assert(r@.definitions =~= self@.definitions);
        }
        r
    }
}

/// A word's case-folded form, named so that contracts can speak of it.
pub uninterp spec fn lower_of(s: Seq<char>) -> Seq<char>;

/// Relies on str::to_lowercase: the result depends on the characters alone.
#[verifier::external_body]
fn lowercase(s: &str) -> (r: String)
    ensures
        r@ == lower_of(s@),
{
    s.to_lowercase()
}

/// Whether some entry's word case-insensitively equals the given folded
/// word.
pub open spec fn spec_has_word(es: Seq<EntryModel>, word_lower: Seq<char>) -> bool {
    exists|i: int| 0 <= i < es.len() && lower_of((#[trigger] es[i]).word) == word_lower
}

/// Whether the word is already saved, case-insensitively.
pub fn is_word_in_vocabulary(entries: &Vec<VocabularyEntry>, word: &str) -> (r: bool)
    ensures
        r == spec_has_word(entry_views(entries@), lower_of(word@)),
{
    let wl = lowercase(word);
    let n = entries.len();
    let mut i: usize = 0;
    while i < n
        invariant
            n == entries@.len(),
            i <= n,
            wl@ == lower_of(word@),
            forall|j: int|
                0 <= j < i ==> lower_of((#[trigger] entry_views(entries@)[j]).word) != lower_of(
                    word@,
                ),
        decreases n - i,
    {
        let el = lowercase(entries[i].word.as_str());
        if str_eq(el.as_str(), wl.as_str()) {
            proof {
                assert(entry_views(entries@)[i as int].word == entries@[i as int].word@);
            }
            return true;
        }
        i = i + 1;
        proof {
            assert(entry_views(entries@)[i - 1].word == entries@[i - 1].word@);
        }
    }
    false
}

/// Adds a word unless it is already saved case-insensitively; reports
/// whether anything changed, so the caller knows whether to save the list.
pub fn add_vocabulary_word(
    entries: &mut Vec<VocabularyEntry>,
    word: String,
    phonetic: Option<String>,
    definitions: Vec<WordDefinitionResult>,
    added_at: DateStamp,
) -> (added: bool)
    ensures
        added == !spec_has_word(entry_views(old(entries)@), lower_of(word@)),
        !added ==> final(entries)@ == old(entries)@,
        added ==> entry_views(final(entries)@) == entry_views(old(entries)@).push(
            EntryModel {
                word: word@,
                phonetic: match phonetic {
                    Some(p) => Some(p@),
                    None => None,
                },
                definitions: definitions@.map_values(|d: WordDefinitionResult| d@),
                added_at,
            },
        ),
{
    if is_word_in_vocabulary(entries, word.as_str()) {
        return false;
    }
    let entry = VocabularyEntry { word, phonetic, definitions, added_at };
    let ghost ev = entry@;
    entries.push(entry);
    proof {
        assert(entry_views(entries@) =~= entry_views(old(entries)@).push(ev));
    }
    true
}

/// Removes every entry whose word case-insensitively equals the given one.
pub fn remove_vocabulary_word(entries: &mut Vec<VocabularyEntry>, word: &str)
    ensures
        entry_views(final(entries)@) == entry_views(old(entries)@).filter(
            |e: EntryModel| lower_of(e.word) != lower_of(word@),
        ),
{
    let wl = lowercase(word);
    let mut kept: Vec<VocabularyEntry> = Vec::new();
    let n = entries.len();
    let mut i: usize = 0;
    let ghost pred = |e: EntryModel| lower_of(e.word) != lower_of(word@);
    proof {
        reveal(Seq::filter);
        assert(entry_views(entries@.subrange(0, 0)) =~= Seq::<EntryModel>::empty());
        assert(entry_views(kept@) =~= entry_views(entries@.subrange(0, 0)).filter(pred));
    }
    while i < n
        invariant
            n == entries@.len(),
            i <= n,
            wl@ == lower_of(word@),
            pred == (|e: EntryModel| lower_of(e.word) != lower_of(word@)),
            entry_views(kept@) == entry_views(entries@.subrange(0, i as int)).filter(pred),
        decreases n - i,
    {
        let ghost prev = kept@;
        let el = lowercase(entries[i].word.as_str());
        if !str_eq(el.as_str(), wl.as_str()) {
            kept.push(entries[i].clone());
        }
        i = i + 1;
        proof {
            reveal(Seq::filter);
            let evs = entry_views(entries@.subrange(0, i as int));
            assert(evs.drop_last() =~= entry_views(entries@.subrange(0, i - 1)));
            assert(evs.last() == entries@[i - 1]@);
            if kept@.len() > prev.len() {
                assert(entry_views(kept@) =~= entry_views(prev).push(entries@[i - 1]@));
            } else {
                assert(entry_views(kept@) =~= entry_views(prev));
            }
        }
    }
    proof {
        assert(entries@.subrange(0, n as int) =~= entries@);
    }
    *entries = kept;
}

/// One sense rendered as a markdown bullet.
pub open spec fn spec_def_md(d: DefinitionModel) -> Seq<char> {
    if d.pos.len() == 0 {
        "- "@ + d.meanings + "\n"@
    } else {
        "- **"@ + d.pos + "** "@ + d.meanings + "\n"@
    }
}

/// The senses of one entry, rendered in order.
pub open spec fn spec_defs_md(ds: Seq<DefinitionModel>) -> Seq<char>
    decreases ds.len(),
{
    if ds.len() == 0 {
        Seq::empty()
    } else {
        spec_defs_md(ds.drop_last()) + spec_def_md(ds.last())
    }
}

/// One entry rendered as a markdown section.
pub open spec fn spec_entry_md(e: EntryModel) -> Seq<char> {
    "## "@ + e.word + "\n\n"@ + (match e.phonetic {
        Some(p) => "**Pronunciation:** "@ + p + "\n\n"@,
        None => Seq::empty(),
    }) + spec_defs_md(e.definitions) + "\n*Added: "@ + spec_format_date(e.added_at)
        + "*\n\n---\n\n"@
}

/// The entries rendered in order.
pub open spec fn spec_entries_md(es: Seq<EntryModel>) -> Seq<char>
    decreases es.len(),
{
    if es.len() == 0 {
        Seq::empty()
    } else {
        spec_entries_md(es.drop_last()) + spec_entry_md(es.last())
    }
}

/// The whole export: a header, the word count, and one section per entry.
pub open spec fn spec_export_markdown(es: Seq<EntryModel>) -> Seq<char> {
    "# My Vocabulary\n\nTotal words: "@ + spec_decimal(es.len()) + "\n\n---\n\n"@
        + spec_entries_md(es)
}

fn push_def_md(out: &mut String, d: &WordDefinitionResult)
    ensures
        final(out)@ == old(out)@ + spec_def_md(d@),
{
    if d.pos.unicode_len() == 0 {
        out.append("- ");
        out.append(d.meanings.as_str());
        out.append("\n");
    } else {
        out.append("- **");
        out.append(d.pos.as_str());
        out.append("** ");
        out.append(d.meanings.as_str());
        out.append("\n");
    }
    proof {
        assert(final(out)@ =~= old(out)@ + spec_def_md(d@));
    }
}

fn push_entry_md(out: &mut String, e: &VocabularyEntry)
    requires
        e.added_at.valid(),
    ensures
        final(out)@ == old(out)@ + spec_entry_md(e@),
{
    out.append("## ");
    out.append(e.word.as_str());
    out.append("\n\n");
    match &e.phonetic {
        Some(p) => {
            out.append("**Pronunciation:** ");
            out.append(p.as_str());
            out.append("\n\n");
        },
        None => {},
    }
    let ghost before_defs = out@;
    let n = e.definitions.len();
    let mut i: usize = 0;
    proof {
        assert(e@.definitions.subrange(0, 0) =~= Seq::<DefinitionModel>::empty());
        assert(out@ =~= before_defs + spec_defs_md(e@.definitions.subrange(0, 0)));
    }
    while i < n
        invariant
            n == e.definitions@.len(),
            e@.definitions.len() == n,
            i <= n,
            forall|j: int| 0 <= j < n ==> e@.definitions[j] == (#[trigger] e.definitions@[j])@,
            out@ == before_defs + spec_defs_md(e@.definitions.subrange(0, i as int)),
        decreases n - i,
    {
        push_def_md(out, &e.definitions[i]);
        i = i + 1;
        proof {
            let dv = e@.definitions.subrange(0, i as int);
            assert(dv.drop_last() =~= e@.definitions.subrange(0, i - 1));
            assert(dv.last() == e@.definitions[i - 1]);
        }
    }
    proof {
        assert(e@.definitions.subrange(0, n as int) =~= e@.definitions);
    }
    out.append("\n*Added: ");
    push_date(out, &e.added_at);
    out.append("*\n\n---\n\n");
    proof {
        assert(final(out)@ =~= old(out)@ + spec_entry_md(e@));
    }
}

/// Renders the vocabulary as a markdown document.
pub fn export_vocabulary_markdown(entries: &Vec<VocabularyEntry>) -> (r: String)
    requires
        forall|i: int| 0 <= i < entries@.len() ==> (#[trigger] entries@[i]).added_at.valid(),
    ensures
        r@ == spec_export_markdown(entry_views(entries@)),
{
    let mut r = String::new();
    r.append("# My Vocabulary\n\nTotal words: ");
    push_decimal(&mut r, entries.len() as u64);
    r.append("\n\n---\n\n");
    let ghost head = "# My Vocabulary\n\nTotal words: "@ + spec_decimal(entries@.len() as nat)
        + "\n\n---\n\n"@;
    proof {
        assert(entry_views(entries@.subrange(0, 0)) =~= Seq::<EntryModel>::empty());
        assert(r@ =~= head + spec_entries_md(entry_views(entries@.subrange(0, 0))));
    }
    let n = entries.len();
    let mut i: usize = 0;
    while i < n
        invariant
            n == entries@.len(),
            i <= n,
            forall|j: int| 0 <= j < n ==> (#[trigger] entries@[j]).added_at.valid(),
            r@ == head + spec_entries_md(entry_views(entries@.subrange(0, i as int))),
        decreases n - i,
    {
        push_entry_md(&mut r, &entries[i]);
        i = i + 1;
        proof {
            let evs = entry_views(entries@.subrange(0, i as int));
            assert(evs.drop_last() =~= entry_views(entries@.subrange(0, i - 1)));
            assert(evs.last() == entries@[i - 1]@);
        }
    }
    proof {
        assert(entries@.subrange(0, n as int) =~= entries@);
    }
    r
}

} // verus!
