use vstd::prelude::*;
use crate::split::{
    dedup_chars, dedup_seq, join_chars, join_seq, split_by, split_chars, split_whitespace_chars,
    split_whitespace_seq, trimmed_nonempty, trimmed_parts,
};
use crate::text::{chars_of, strings_of, texts_of, views_of};

verus! {

/// `raw.split(',').map(str::trim).filter(|v| !v.is_empty())`.
pub open spec fn comma_items(raw: Seq<char>) -> Seq<Seq<char>> {
    trimmed_parts(split_by(raw, ','))
}

/// A tag with each run of inner whitespace turned into one `-`.
pub open spec fn hyphenate(t: Seq<char>) -> Seq<char> {
    join_seq(split_whitespace_seq(t), seq!['-'])
}

pub open spec fn hyphenate_all(parts: Seq<Seq<char>>) -> Seq<Seq<char>> {
    parts.map_values(|t: Seq<char>| hyphenate(t))
}

/// The tags that `rule-system` keeps from a comma-separated list: trimmed,
/// non-empty, inner whitespace joined by `-`, first occurrence of each.
pub open spec fn cli_tags(raw: Seq<char>) -> Seq<Seq<char>> {
    dedup_seq(hyphenate_all(comma_items(raw)))
}

/// The tags that the picker keeps from a comma-separated list: trimmed,
/// non-empty, first occurrence of each.
pub open spec fn ui_tags(raw: Seq<char>) -> Seq<Seq<char>> {
    dedup_seq(comma_items(raw))
}

/// All comma items of all the given values, in order.
pub open spec fn flat_items(raw: Seq<Seq<char>>) -> Seq<Seq<char>>
    decreases raw.len(),
{
    if raw.len() == 0 {
        Seq::empty()
    } else {
        flat_items(raw.drop_last()) + comma_items(raw.last())
    }
}

/// Tags given as a list whose entries may each hold several comma-separated
/// tags: split, trimmed, non-empty, first occurrence of each.
pub open spec fn normalized_tags(raw: Seq<Seq<char>>) -> Seq<Seq<char>> {
    dedup_seq(flat_items(raw))
}

/// `raw.split(';')` trimmed and without empty pieces; a text without `;`
/// gives its trimmed self, or nothing when that is empty.
pub open spec fn batch_items(raw: Seq<char>) -> Seq<Seq<char>> {
    trimmed_parts(split_by(raw, ';'))
}

fn comma_items_chars(raw: &str) -> (r: Vec<Vec<char>>)
    ensures
        views_of(r@) == comma_items(raw@),
{
    let v = chars_of(raw);
    let parts = split_chars(&v, ',');
    trimmed_nonempty(&parts)
}

/// Splits a comma-separated id list into trimmed, non-empty ids.
pub fn split_ids(raw: &str) -> (r: Vec<String>)
    ensures
        texts_of(r@) == comma_items(raw@),
{
    let items = comma_items_chars(raw);
    strings_of(&items)
}

/// Splits a comma-separated tag list the way the command line takes tags.
pub fn split_tags(raw: &str) -> (r: Vec<String>)
    ensures
        texts_of(r@) == cli_tags(raw@),
{
    let items = comma_items_chars(raw);
    let ghost orig = views_of(items@);
    let mut hyph: Vec<Vec<char>> = Vec::new();
    let mut i: usize = 0;
    let dash: Vec<char> = vec!['-'];
    assert(dash@ =~= seq!['-']);
    while i < items.len()
        invariant
            i <= items.len(),
            orig == views_of(items@),
            dash@ == seq!['-'],
            views_of(hyph@) =~= hyphenate_all(orig.take(i as int)),
        decreases items.len() - i,
    {
        let words = split_whitespace_chars(&items[i]);
        let joined = join_chars(&words, &dash);
        assert(joined@ == hyphenate(orig[i as int]));
        hyph.push(joined);
        assert(orig.take(i + 1) =~= orig.take(i as int).push(orig[i as int]));
        assert(hyphenate_all(orig.take(i + 1)) =~= hyphenate_all(orig.take(i as int)).push(
            hyphenate(orig[i as int]),
        ));
        i += 1;
    }
    assert(orig.take(items.len() as int) =~= orig);
    let d = dedup_chars(hyph);
    strings_of(&d)
}

/// Splits a comma-separated tag list the way the picker's editor takes tags.
pub fn split_ui_tags(raw: &str) -> (r: Vec<String>)
    ensures
        texts_of(r@) == ui_tags(raw@),
{
    let items = comma_items_chars(raw);
    let d = dedup_chars(items);
    strings_of(&d)
}

/// Flattens a tag list whose entries may hold commas, then drops repeats.
pub fn normalize_tags(raw: Vec<String>) -> (r: Vec<String>)
    ensures
        texts_of(r@) == normalized_tags(texts_of(raw@)),
{
    let ghost orig = texts_of(raw@);
    let mut all: Vec<Vec<char>> = Vec::new();
    let mut i: usize = 0;
    while i < raw.len()
        invariant
            i <= raw.len(),
            orig == texts_of(raw@),
            views_of(all@) == flat_items(orig.take(i as int)),
        decreases raw.len() - i,
    {
        let items = comma_items_chars(raw[i].as_str());
        let ghost before = views_of(all@);
        let ghost added = views_of(items@);
        let mut k: usize = 0;
        let n = items.len();
        while k < n
            invariant
                k <= n == items.len(),
                added == views_of(items@),
                views_of(all@) =~= before + added.take(k as int),
            decreases n - k,
        {
            let item = crate::text::subvec(&items[k], 0, items[k].len());
            assert(item@ =~= added[k as int]);
            let ghost prev_all = all@;
            all.push(item);
            assert(views_of(all@) =~= views_of(prev_all).push(added[k as int]));
            assert(added.take(k + 1) =~= added.take(k as int).push(added[k as int]));
            k += 1;
        }
        assert(added.take(n as int) =~= added);
        assert(orig.take(i + 1).drop_last() =~= orig.take(i as int));
        i += 1;
    }
    assert(orig.take(raw.len() as int) =~= orig);
    let d = dedup_chars(all);
    strings_of(&d)
}

/// Splits `;`-separated batch input.
pub fn split_batch(raw: &str) -> (r: Vec<String>)
    ensures
        texts_of(r@) == batch_items(raw@),
{
    let v = chars_of(raw);
    let parts = split_chars(&v, ';');
    let items = trimmed_nonempty(&parts);
    strings_of(&items)
}

// ---------------------------------------------------------------------------
// What a tag list looks like
// ---------------------------------------------------------------------------

pub proof fn lemma_dedup_no_duplicates(s: Seq<Seq<char>>)
    ensures
        dedup_seq(s).no_duplicates(),
    decreases s.len(),
{
    if s.len() > 0 {
        lemma_dedup_no_duplicates(s.drop_last());
    }
}

pub proof fn lemma_push_contains(s: Seq<Seq<char>>, a: Seq<char>, x: Seq<char>)
    ensures
        s.push(a).contains(x) <==> s.contains(x) || x == a,
{
    if s.contains(x) {
        let k = choose|k: int| 0 <= k < s.len() && s[k] == x;
        assert(s.push(a)[k] == x);
    }
    if x == a {
        assert(s.push(a)[s.len() as int] == x);
    }
    if s.push(a).contains(x) && x != a {
        let k = choose|k: int| 0 <= k < s.push(a).len() && s.push(a)[k] == x;
        assert(s[k] == x);
    }
}

pub proof fn lemma_dedup_same_items(s: Seq<Seq<char>>)
    ensures
        forall|x: Seq<char>| #[trigger] dedup_seq(s).contains(x) <==> s.contains(x),
    decreases s.len(),
{
    if s.len() > 0 {
        let p = s.drop_last();
        let l = s.last();
        lemma_dedup_same_items(p);
        assert(s =~= p.push(l));
        assert forall|x: Seq<char>| #[trigger] dedup_seq(s).contains(x) <==> s.contains(x) by {
            lemma_push_contains(p, l, x);
            lemma_push_contains(dedup_seq(p), l, x);
        }
    }
}

} // verus!
