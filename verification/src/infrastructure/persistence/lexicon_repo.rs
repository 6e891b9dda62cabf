//! The lexicon table's logic: cleaning and merging taught rules, the stored role names,
//! and rebuilding the nested lexicon from the table's rows.

use vstd::prelude::*;
use crate::domain::entities::{CategoryRule, LexiconFile, RuleView, TransactionRole, subs_view, categories_view};
use crate::domain::lexicon::DbError;
use crate::domain::services::categorizer::{dedupe, lemma_dedupe_distinct, lemma_dedupe_fixed};
use crate::domain::services::gemini_classifier::{cleaned_words, normalized_keywords, normalized_patterns, patterns_view};
use crate::text::{texts_view, chars_of, text_is};

pub use crate::domain::services::gemini_classifier::{normalize_keywords, normalize_patterns};

verus! {

/// Existing keywords followed by the incoming ones, each kept once (its first time).
pub open spec fn merged_keywords(existing: Seq<Seq<char>>, incoming: Seq<Seq<char>>) -> Seq<Seq<char>> {
    dedupe(existing + incoming)
}

/// Texts joined with `sep` between each two.
pub open spec fn join_with(ws: Seq<Seq<char>>, sep: char) -> Seq<char>
    decreases ws.len(),
{
    if ws.len() == 0 {
        Seq::empty()
    } else if ws.len() == 1 {
        ws[0]
    } else {
        join_with(ws.drop_last(), sep) + seq![sep] + ws.last()
    }
}

/// The text a pattern is compared by: its words joined with the unit separator U+001F.
pub open spec fn signature(p: Seq<Seq<char>>) -> Seq<char> {
    join_with(p, '\u{1f}')
}

pub open spec fn has_signature(ps: Seq<Seq<Seq<char>>>, s: Seq<char>) -> bool {
    exists|k: int| 0 <= k < ps.len() && signature(#[trigger] ps[k]) == s
}

/// The patterns, each kept unless an earlier kept one has the same signature.
pub open spec fn dedupe_by_signature(ps: Seq<Seq<Seq<char>>>) -> Seq<Seq<Seq<char>>>
    decreases ps.len(),
{
    if ps.len() == 0 {
        Seq::empty()
    } else {
        let d = dedupe_by_signature(ps.drop_last());
        if has_signature(d, signature(ps.last())) {
            d
        } else {
            d.push(ps.last())
        }
    }
}

/// Existing keywords extended by the incoming ones, without repeats.
pub fn merge_keywords(existing: Vec<String>, incoming: Vec<String>) -> (r: Vec<String>)
    ensures
        texts_view(r@) == merged_keywords(texts_view(existing@), texts_view(incoming@)),
        texts_view(r@).no_duplicates(),
        forall|w: Seq<char>| #[trigger] texts_view(r@).contains(w) <==> (texts_view(existing@).contains(w)
            || texts_view(incoming@).contains(w)),
{
    let ghost all = texts_view(existing@) + texts_view(incoming@);
    let ghost n = existing@.len() as int;
    let mut out: Vec<String> = Vec::new();
    let mut i: usize = 0;
    while i < existing.len()
        invariant
            i <= existing.len(),
            n == existing@.len(),
            all == texts_view(existing@) + texts_view(incoming@),
            texts_view(out@) == dedupe(all.take(i as int)),
        decreases existing.len() - i,
    {
        let value = existing[i].clone();
        proof {
            assert(all.take(i + 1).drop_last() =~= all.take(i as int));
            assert(all.take(i + 1).last() == value@);
            assert(texts_view(out@) =~= out@.map_values(|x: String| x@));
        }
        crate::domain::services::categorizer::TransactionCategorizer::push_unique(&mut out, value);
        proof {
            assert(texts_view(out@) =~= out@.map_values(|x: String| x@));
        }
        i = i + 1;
    }
    let mut j: usize = 0;
    while j < incoming.len()
        invariant
            j <= incoming.len(),
            n == existing@.len(),
            all == texts_view(existing@) + texts_view(incoming@),
            texts_view(out@) == dedupe(all.take(n + j)),
        decreases incoming.len() - j,
    {
        let value = incoming[j].clone();
        proof {
            assert(all.take(n + j + 1).drop_last() =~= all.take(n + j));
            assert(all.take(n + j + 1).last() == value@);
            assert(texts_view(out@) =~= out@.map_values(|x: String| x@));
        }
        crate::domain::services::categorizer::TransactionCategorizer::push_unique(&mut out, value);
        proof {
            assert(texts_view(out@) =~= out@.map_values(|x: String| x@));
        }
        j = j + 1;
    }
    proof {
        assert(all.take(all.len() as int) =~= all);
        lemma_dedupe_distinct(all);
        lemma_concat_contains(texts_view(existing@), texts_view(incoming@));
        assert(texts_view(out@) == dedupe(all));
        assert forall|w: Seq<char>| #[trigger] texts_view(out@).contains(w) <==> (texts_view(existing@).contains(w)
            || texts_view(incoming@).contains(w)) by {
            assert(dedupe(all).contains(w) <==> all.contains(w));
            assert(all.contains(w) <==> (texts_view(existing@).contains(w) || texts_view(incoming@).contains(w)));
        }
    }
    out
}

proof fn lemma_concat_contains<A>(a: Seq<A>, b: Seq<A>)
    ensures
        forall|w: A| #[trigger] (a + b).contains(w) <==> (a.contains(w) || b.contains(w)),
{
    assert forall|w: A| #[trigger] (a + b).contains(w) <==> (a.contains(w) || b.contains(w)) by {
        if (a + b).contains(w) {
            let i = choose|i: int| 0 <= i < (a + b).len() && (a + b)[i] == w;
            if i < a.len() {
                assert(a[i] == w);
            } else {
                assert(b[i - a.len()] == w);
            }
        }
        if a.contains(w) {
            let i = choose|i: int| 0 <= i < a.len() && a[i] == w;
            assert((a + b)[i] == w);
        }
        if b.contains(w) {
            let i = choose|i: int| 0 <= i < b.len() && b[i] == w;
            assert((a + b)[a.len() + i] == w);
        }
    }
}

/// The signatures of the kept patterns are distinct, and every pattern's signature is
/// among them.
pub proof fn lemma_dedupe_by_signature(ps: Seq<Seq<Seq<char>>>)
    ensures
        forall|i: int, j: int|
            0 <= i < j < dedupe_by_signature(ps).len() ==> signature(#[trigger] dedupe_by_signature(ps)[i])
                != signature(#[trigger] dedupe_by_signature(ps)[j]),
        forall|k: int| 0 <= k < ps.len() ==> has_signature(dedupe_by_signature(ps), signature(#[trigger] ps[k])),
    decreases ps.len(),
{
    if ps.len() > 0 {
        let prev = ps.drop_last();
        lemma_dedupe_by_signature(prev);
        let d = dedupe_by_signature(prev);
        let x = ps.last();
        let r = dedupe_by_signature(ps);
        assert forall|k: int| 0 <= k < ps.len() implies has_signature(r, signature(#[trigger] ps[k])) by {
            if k < ps.len() - 1 {
                assert(ps[k] == prev[k]);
                assert(has_signature(d, signature(prev[k])));
                let m = choose|m: int| 0 <= m < d.len() && signature(#[trigger] d[m]) == signature(prev[k]);
                if !has_signature(d, signature(x)) {
                    assert(r[m] == d[m]);
                }
                assert(signature(r[m]) == signature(ps[k]));
            } else {
                if !has_signature(d, signature(x)) {
                    assert(r[d.len() as int] == x);
                }
            }
        }
        if !has_signature(d, signature(x)) {
            assert forall|i: int, j: int| 0 <= i < j < r.len() implies signature(#[trigger] r[i]) != signature(#[trigger] r[j]) by {
                if j < d.len() {
                    assert(r[i] == d[i] && r[j] == d[j]);
                } else {
                    assert(r[i] == d[i]);
                    assert(r[j] == x);
                }
            }
        }
    }
}
fn signature_of(p: &Vec<String>) -> (r: Vec<char>)
    ensures
        r@ == signature(texts_view(p@)),
{
    let ghost pv = texts_view(p@);
    let mut out: Vec<char> = Vec::new();
    let mut i: usize = 0;
    while i < p.len()
        invariant
            i <= p.len(),
            pv == texts_view(p@),
            out@ == join_with(pv.take(i as int), '\u{1f}'),
        decreases p.len() - i,
    {
        let ghost before = out@;
        if i > 0 {
            out.push('\u{1f}');
        }
        let w = chars_of(p[i].as_str());
        let ghost mid = out@;
        let mut k: usize = 0;
        while k < w.len()
            invariant
                k <= w.len(),
                out@ == mid + w@.take(k as int),
            decreases w.len() - k,
        {
            out.push(w[k]);
            proof {
                assert(w@.take(k + 1) =~= w@.take(k as int).push(w@[k as int]));
                assert(mid + w@.take(k + 1) =~= (mid + w@.take(k as int)).push(w@[k as int]));
            }
            k = k + 1;
        }
        proof {
            assert(w@.take(w.len() as int) =~= w@);
            assert(pv.take(i + 1).drop_last() =~= pv.take(i as int));
            assert(pv.take(i + 1).last() == w@);
            if i == 0 {
                assert(out@ =~= w@);
                assert(pv.take(1) =~= seq![w@]);
            } else {
                assert(out@ =~= before + seq!['\u{1f}'] + w@);
            }
        }
        i = i + 1;
    }
    proof {
        assert(pv.take(p.len() as int) =~= pv);
    }
    out
}

fn copy_words(v: &Vec<String>) -> (r: Vec<String>)
    ensures
        r@ == v@,
{
    let mut out: Vec<String> = Vec::new();
    let mut i: usize = 0;
    while i < v.len()
        invariant
            i <= v.len(),
            out@ == v@.take(i as int),
        decreases v.len() - i,
    {
        out.push(v[i].clone());
        proof {
            assert(v@.take(i + 1) =~= v@.take(i as int).push(v@[i as int]));
        }
        i = i + 1;
    }
    proof {
        assert(v@.take(v.len() as int) =~= v@);
    }
    out
}

/// Adds `pattern` unless a kept pattern has the same signature.
fn add_by_signature(out: &mut Vec<Vec<String>>, seen: &mut Vec<Vec<char>>, pattern: &Vec<String>)
    requires
        old(seen)@.len() == old(out)@.len(),
        forall|k: int| 0 <= k < old(seen)@.len() ==> #[trigger] old(seen)@[k]@ == signature(patterns_view(old(out)@)[k]),
    ensures
        final(seen)@.len() == final(out)@.len(),
        forall|k: int| 0 <= k < final(seen)@.len() ==> #[trigger] final(seen)@[k]@ == signature(patterns_view(final(out)@)[k]),
        patterns_view(final(out)@) == (if has_signature(patterns_view(old(out)@), signature(texts_view(pattern@))) {
            patterns_view(old(out)@)
        } else {
            patterns_view(old(out)@).push(texts_view(pattern@))
        }),
{
    let sig = signature_of(pattern);
    let ghost d = patterns_view(out@);
    let mut found = false;
    let mut k: usize = 0;
    while k < seen.len()
        invariant
            k <= seen.len(),
            seen@ == old(seen)@,
            d == patterns_view(old(out)@),
            seen@.len() == d.len(),
            forall|m: int| 0 <= m < seen@.len() ==> #[trigger] seen@[m]@ == signature(d[m]),
            found == (exists|m: int| 0 <= m < k && signature(#[trigger] d[m]) == sig@),
        decreases seen.len() - k,
    {
        if crate::text::chars_eq(&seen[k], &sig) {
            found = true;
        }
        proof {
            assert(seen@[k as int]@ == signature(d[k as int]));
        }
        k = k + 1;
    }
    proof {
        assert(found == has_signature(d, sig@));
    }
    if !found {
        out.push(copy_words(pattern));
        seen.push(sig);
        proof {
            assert(patterns_view(out@) =~= d.push(texts_view(pattern@)));
            assert forall|m: int| 0 <= m < seen@.len() implies #[trigger] seen@[m]@ == signature(patterns_view(out@)[m]) by {
                if m < d.len() {
                    assert(patterns_view(out@)[m] == d[m]);
                }
            }
        }
    }
}

/// Existing patterns extended by the incoming ones, without two of the same signature.
pub fn merge_patterns(existing: Vec<Vec<String>>, incoming: Vec<Vec<String>>) -> (r: Vec<Vec<String>>)
    ensures
        patterns_view(r@) == dedupe_by_signature(patterns_view(existing@) + patterns_view(incoming@)),
        forall|i: int, j: int|
            0 <= i < j < r@.len() ==> signature(#[trigger] patterns_view(r@)[i]) != signature(#[trigger] patterns_view(r@)[j]),
        forall|k: int| 0 <= k < existing@.len() ==> has_signature(patterns_view(r@), signature(texts_view(#[trigger] existing@[k]@))),
        forall|k: int| 0 <= k < incoming@.len() ==> has_signature(patterns_view(r@), signature(texts_view(#[trigger] incoming@[k]@))),
{
    let ghost all = patterns_view(existing@) + patterns_view(incoming@);
    let ghost n = existing@.len() as int;
    let mut out: Vec<Vec<String>> = Vec::new();
    let mut seen: Vec<Vec<char>> = Vec::new();
    let mut i: usize = 0;
    while i < existing.len()
        invariant
            i <= existing.len(),
            n == existing@.len(),
            all == patterns_view(existing@) + patterns_view(incoming@),
            patterns_view(out@) == dedupe_by_signature(all.take(i as int)),
            seen@.len() == out@.len(),
            forall|k: int| 0 <= k < seen@.len() ==> #[trigger] seen@[k]@ == signature(patterns_view(out@)[k]),
        decreases existing.len() - i,
    {
        proof {
            assert(all.take(i + 1).drop_last() =~= all.take(i as int));
            assert(all.take(i + 1).last() == texts_view(existing@[i as int]@));
        }
        add_by_signature(&mut out, &mut seen, &existing[i]);
        i = i + 1;
    }
    let mut j: usize = 0;
    while j < incoming.len()
        invariant
            j <= incoming.len(),
            n == existing@.len(),
            all == patterns_view(existing@) + patterns_view(incoming@),
            patterns_view(out@) == dedupe_by_signature(all.take(n + j)),
            seen@.len() == out@.len(),
            forall|k: int| 0 <= k < seen@.len() ==> #[trigger] seen@[k]@ == signature(patterns_view(out@)[k]),
        decreases incoming.len() - j,
    {
        proof {
            assert(all.take(n + j + 1).drop_last() =~= all.take(n + j));
            assert(all.take(n + j + 1).last() == texts_view(incoming@[j as int]@));
        }
        add_by_signature(&mut out, &mut seen, &incoming[j]);
        j = j + 1;
    }
    proof {
        assert(all.take(all.len() as int) =~= all);
        lemma_dedupe_by_signature(all);
        assert forall|k: int| 0 <= k < existing@.len() implies has_signature(patterns_view(out@), signature(texts_view(#[trigger] existing@[k]@))) by {
            assert(all[k] == texts_view(existing@[k]@));
        }
        assert forall|k: int| 0 <= k < incoming@.len() implies has_signature(patterns_view(out@), signature(texts_view(#[trigger] incoming@[k]@))) by {
            assert(all[n + k] == texts_view(incoming@[k]@));
        }
    }
    out
}

/// Keywords and patterns that stand for a stored rule.
pub type RuleWords = (Seq<Seq<char>>, Seq<Seq<Seq<char>>>);

/// The keywords and patterns stored after teaching a rule: the cleaned incoming ones,
/// merged into the stored ones when there are some.
pub open spec fn merged_rule_view(existing: Option<RuleWords>, keywords: Seq<Seq<char>>, patterns: Seq<Seq<Seq<char>>>) -> RuleWords {
    let k = normalized_keywords(keywords);
    let p = normalized_patterns(patterns);
    match existing {
        None => (k, p),
        Some((ek, ep)) => (merged_keywords(ek, k), dedupe_by_signature(ep + p)),
    }
}

pub open spec fn stored_rule_view(existing: Option<(Vec<String>, Vec<Vec<String>>)>) -> Option<RuleWords> {
    match existing {
        None => None,
        Some((ek, ep)) => Some((texts_view(ek@), patterns_view(ep@))),
    }
}

/// Merging a sequence with words it already holds keeps it as it was.
proof fn lemma_dedupe_absorbs(s: Seq<Seq<char>>, b: Seq<Seq<char>>)
    requires
        forall|k: int| 0 <= k < b.len() ==> s.contains(#[trigger] b[k]),
    ensures
        dedupe(s + b) == dedupe(s),
    decreases b.len(),
{
    if b.len() > 0 {
        lemma_dedupe_absorbs(s, b.drop_last());
        assert((s + b).drop_last() =~= s + b.drop_last());
        assert((s + b).last() == b.last());
        lemma_dedupe_distinct(s);
        assert(s.contains(b[b.len() - 1]));
    } else {
        assert(s + b =~= s);
    }
}

/// The dedupe of a sequence is a prefix of the dedupe of any extension of it.
proof fn lemma_dedupe_prefix(a: Seq<Seq<char>>, b: Seq<Seq<char>>)
    ensures
        dedupe(a).len() <= dedupe(a + b).len(),
        dedupe(a + b).take(dedupe(a).len() as int) == dedupe(a),
    decreases b.len(),
{
    if b.len() > 0 {
        lemma_dedupe_prefix(a, b.drop_last());
        assert((a + b).drop_last() =~= a + b.drop_last());
        let d = dedupe(a + b.drop_last());
        let n = dedupe(a).len() as int;
        assert(d.push(b.last()).take(n) =~= d.take(n));
    } else {
        assert(a + b =~= a);
        assert(dedupe(a).take(dedupe(a).len() as int) =~= dedupe(a));
    }
}

/// Merging the same incoming keywords a second time changes nothing.
pub proof fn lemma_merge_keywords_idempotent(existing: Seq<Seq<char>>, incoming: Seq<Seq<char>>)
    ensures
        merged_keywords(merged_keywords(existing, incoming), incoming) == merged_keywords(existing, incoming),
{
    let d = merged_keywords(existing, incoming);
    lemma_dedupe_distinct(existing + incoming);
    assert forall|k: int| 0 <= k < incoming.len() implies d.contains(#[trigger] incoming[k]) by {
        assert((existing + incoming)[existing.len() + k] == incoming[k]);
        assert((existing + incoming).contains(incoming[k]));
    }
    lemma_dedupe_absorbs(d, incoming);
    lemma_dedupe_fixed(d);
}

/// Keywords without repeats stay first, in their order, when others are merged in.
pub proof fn lemma_merge_keywords_keeps_existing(existing: Seq<Seq<char>>, incoming: Seq<Seq<char>>)
    requires
        existing.no_duplicates(),
    ensures
        existing.len() <= merged_keywords(existing, incoming).len(),
        merged_keywords(existing, incoming).take(existing.len() as int) == existing,
{
    lemma_dedupe_prefix(existing, incoming);
    lemma_dedupe_fixed(existing);
}

/// Merging patterns whose signatures are already there keeps the patterns as they were.
proof fn lemma_dedupe_by_signature_absorbs(s: Seq<Seq<Seq<char>>>, b: Seq<Seq<Seq<char>>>)
    requires
        forall|k: int| 0 <= k < b.len() ==> has_signature(s, signature(#[trigger] b[k])),
    ensures
        dedupe_by_signature(s + b) == dedupe_by_signature(s),
    decreases b.len(),
{
    if b.len() > 0 {
        lemma_dedupe_by_signature_absorbs(s, b.drop_last());
        assert((s + b).drop_last() =~= s + b.drop_last());
        assert((s + b).last() == b.last());
        lemma_dedupe_by_signature(s);
        assert(has_signature(s, signature(b[b.len() - 1])));
        let m = choose|m: int| 0 <= m < s.len() && signature(#[trigger] s[m]) == signature(b[b.len() - 1]);
        assert(has_signature(dedupe_by_signature(s), signature(s[m])));
    } else {
        assert(s + b =~= s);
    }
}

/// Patterns whose signatures are distinct are their own signature dedupe.
proof fn lemma_dedupe_by_signature_fixed(s: Seq<Seq<Seq<char>>>)
    requires
        forall|i: int, j: int| 0 <= i < j < s.len() ==> signature(#[trigger] s[i]) != signature(#[trigger] s[j]),
    ensures
        dedupe_by_signature(s) == s,
    decreases s.len(),
{
    if s.len() > 0 {
        let p = s.drop_last();
        assert forall|i: int, j: int| 0 <= i < j < p.len() implies signature(#[trigger] p[i]) != signature(#[trigger] p[j]) by {
            assert(p[i] == s[i] && p[j] == s[j]);
        }
        lemma_dedupe_by_signature_fixed(p);
        if has_signature(p, signature(s.last())) {
            let m = choose|m: int| 0 <= m < p.len() && signature(#[trigger] p[m]) == signature(s.last());
            assert(s[m] == p[m]);
            assert(signature(s[m]) != signature(s[s.len() - 1]));
        }
        assert(p.push(s.last()) =~= s);
    }
}

/// Merging the same incoming patterns a second time changes nothing.
pub proof fn lemma_merge_patterns_idempotent(existing: Seq<Seq<Seq<char>>>, incoming: Seq<Seq<Seq<char>>>)
    ensures
        dedupe_by_signature(dedupe_by_signature(existing + incoming) + incoming) == dedupe_by_signature(existing + incoming),
{
    let all = existing + incoming;
    let d = dedupe_by_signature(all);
    lemma_dedupe_by_signature(all);
    assert forall|k: int| 0 <= k < incoming.len() implies has_signature(d, signature(#[trigger] incoming[k])) by {
        assert(all[existing.len() + k] == incoming[k]);
    }
    lemma_dedupe_by_signature_absorbs(d, incoming);
    lemma_dedupe_by_signature_fixed(d);
}

/// Teaching the same rule a second time leaves the stored keywords and patterns as the
/// first time left them, when a rule was already stored before the first time or the
/// cleaned incoming patterns have distinct signatures.
pub proof fn lemma_merged_rule_idempotent(
    existing: Option<RuleWords>,
    keywords: Seq<Seq<char>>,
    patterns: Seq<Seq<Seq<char>>>,
)
    requires
        existing is Some || (forall|i: int, j: int|
            0 <= i < j < normalized_patterns(patterns).len() ==> signature(#[trigger] normalized_patterns(patterns)[i])
                != signature(#[trigger] normalized_patterns(patterns)[j])),
    ensures
        merged_rule_view(Some(merged_rule_view(existing, keywords, patterns)), keywords, patterns) == merged_rule_view(
            existing,
            keywords,
            patterns,
        ),
{
    let k = normalized_keywords(keywords);
    let p = normalized_patterns(patterns);
    match existing {
        None => {
            lemma_dedupe_distinct(cleaned_words(keywords));
            lemma_merge_keywords_idempotent(Seq::empty(), k);
            assert(Seq::<Seq<char>>::empty() + k =~= k);
            lemma_dedupe_fixed(k);
            lemma_merge_patterns_idempotent(Seq::empty(), p);
            assert(Seq::<Seq<Seq<char>>>::empty() + p =~= p);
            lemma_dedupe_by_signature_fixed(p);
        },
        Some((ek, ep)) => {
            lemma_merge_keywords_idempotent(ek, k);
            lemma_merge_patterns_idempotent(ep, p);
        },
    }
}

/// The cleaned incoming rule, merged into the stored one when there is one.
pub fn merged_rule(existing: Option<(Vec<String>, Vec<Vec<String>>)>, keywords: Vec<String>, patterns: Vec<Vec<String>>) -> (r: (
    Vec<String>,
    Vec<Vec<String>>,
))
    ensures
        (texts_view(r.0@), patterns_view(r.1@)) == merged_rule_view(
            stored_rule_view(existing),
            texts_view(keywords@),
            patterns_view(patterns@),
        ),
{
    let cleaned_keywords = normalize_keywords(keywords);
    let cleaned_patterns = normalize_patterns(patterns);
    match existing {
        None => (cleaned_keywords, cleaned_patterns),
        Some((existing_keywords, existing_patterns)) => (
            merge_keywords(existing_keywords, cleaned_keywords),
            merge_patterns(existing_patterns, cleaned_patterns),
        ),
    }
}

/// The name a role is stored under.
pub open spec fn role_db_name(role: TransactionRole) -> Seq<char> {
    match role {
        TransactionRole::Income => "Income"@,
        TransactionRole::BusinessExp => "BusinessExp"@,
        TransactionRole::Salary => "Salary"@,
        TransactionRole::TaxExempt => "TaxExempt"@,
        TransactionRole::Utilities => "Utilities"@,
        TransactionRole::Rent => "Rent"@,
        TransactionRole::Relief => "Relief"@,
        TransactionRole::Deduction => "Deduction"@,
        TransactionRole::PersonalExp => "PersonalExp"@,
        TransactionRole::Unknown => "Unknown"@,
        TransactionRole::PassThrough => "PassThrough"@,
    }
}

pub fn role_to_db(role: TransactionRole) -> (r: &'static str)
    ensures
        r@ == role_db_name(role),
{
    match role {
        TransactionRole::Income => "Income",
        TransactionRole::BusinessExp => "BusinessExp",
        TransactionRole::Salary => "Salary",
        TransactionRole::TaxExempt => "TaxExempt",
        TransactionRole::Utilities => "Utilities",
        TransactionRole::Rent => "Rent",
        TransactionRole::Relief => "Relief",
        TransactionRole::Deduction => "Deduction",
        TransactionRole::PersonalExp => "PersonalExp",
        TransactionRole::Unknown => "Unknown",
        TransactionRole::PassThrough => "PassThrough",
    }
}

/// The role a stored name stands for.
pub open spec fn role_from_db(name: Seq<char>) -> Option<TransactionRole> {
    if name == "Income"@ {
        Some(TransactionRole::Income)
    } else if name == "BusinessExp"@ {
        Some(TransactionRole::BusinessExp)
    } else if name == "Salary"@ {
        Some(TransactionRole::Salary)
    } else if name == "TaxExempt"@ {
        Some(TransactionRole::TaxExempt)
    } else if name == "Utilities"@ {
        Some(TransactionRole::Utilities)
    } else if name == "Rent"@ {
        Some(TransactionRole::Rent)
    } else if name == "Relief"@ {
        Some(TransactionRole::Relief)
    } else if name == "Deduction"@ {
        Some(TransactionRole::Deduction)
    } else if name == "PersonalExp"@ {
        Some(TransactionRole::PersonalExp)
    } else if name == "Unknown"@ {
        Some(TransactionRole::Unknown)
    } else if name == "PassThrough"@ {
        Some(TransactionRole::PassThrough)
    } else {
        None
    }
}

/// A role stored under its name reads back as the same role.
pub proof fn lemma_db_role_round_trip(role: TransactionRole)
    ensures
        role_from_db(role_db_name(role)) == Some(role),
{
    reveal_strlit("Income");
    reveal_strlit("BusinessExp");
    reveal_strlit("Salary");
    reveal_strlit("TaxExempt");
    reveal_strlit("Utilities");
    reveal_strlit("Rent");
    reveal_strlit("Relief");
    reveal_strlit("Deduction");
    reveal_strlit("PersonalExp");
    reveal_strlit("Unknown");
    reveal_strlit("PassThrough");
    assert("Income"@.len() == 6 && "Income"@[0] == 'I' && "Income"@[1] == 'n');
    assert("BusinessExp"@.len() == 11 && "BusinessExp"@[0] == 'B' && "BusinessExp"@[1] == 'u');
    assert("Salary"@.len() == 6 && "Salary"@[0] == 'S' && "Salary"@[1] == 'a');
    assert("TaxExempt"@.len() == 9 && "TaxExempt"@[0] == 'T' && "TaxExempt"@[1] == 'a');
    assert("Utilities"@.len() == 9 && "Utilities"@[0] == 'U' && "Utilities"@[1] == 't');
    assert("Rent"@.len() == 4 && "Rent"@[0] == 'R' && "Rent"@[1] == 'e');
    assert("Relief"@.len() == 6 && "Relief"@[0] == 'R' && "Relief"@[1] == 'e');
    assert("Deduction"@.len() == 9 && "Deduction"@[0] == 'D' && "Deduction"@[1] == 'e');
    assert("PersonalExp"@.len() == 11 && "PersonalExp"@[0] == 'P' && "PersonalExp"@[1] == 'e');
    assert("Unknown"@.len() == 7 && "Unknown"@[0] == 'U' && "Unknown"@[1] == 'n');
    assert("PassThrough"@.len() == 11 && "PassThrough"@[0] == 'P' && "PassThrough"@[1] == 'a');
}

/// Each role is stored under its own name (Income, BusinessExp, Salary, TaxExempt,
/// Utilities, Rent, Relief, Deduction, PersonalExp, PassThrough, Unknown), and each of
/// those names reads back as that role.
pub proof fn lemma_db_role_names()
    ensures
        role_db_name(TransactionRole::Income) == "Income"@ && role_from_db("Income"@) == Some(TransactionRole::Income),
        role_db_name(TransactionRole::BusinessExp) == "BusinessExp"@ && role_from_db("BusinessExp"@) == Some(TransactionRole::BusinessExp),
        role_db_name(TransactionRole::Salary) == "Salary"@ && role_from_db("Salary"@) == Some(TransactionRole::Salary),
        role_db_name(TransactionRole::TaxExempt) == "TaxExempt"@ && role_from_db("TaxExempt"@) == Some(TransactionRole::TaxExempt),
        role_db_name(TransactionRole::Utilities) == "Utilities"@ && role_from_db("Utilities"@) == Some(TransactionRole::Utilities),
        role_db_name(TransactionRole::Rent) == "Rent"@ && role_from_db("Rent"@) == Some(TransactionRole::Rent),
        role_db_name(TransactionRole::Relief) == "Relief"@ && role_from_db("Relief"@) == Some(TransactionRole::Relief),
        role_db_name(TransactionRole::Deduction) == "Deduction"@ && role_from_db("Deduction"@) == Some(TransactionRole::Deduction),
        role_db_name(TransactionRole::PersonalExp) == "PersonalExp"@ && role_from_db("PersonalExp"@) == Some(TransactionRole::PersonalExp),
        role_db_name(TransactionRole::PassThrough) == "PassThrough"@ && role_from_db("PassThrough"@) == Some(TransactionRole::PassThrough),
        role_db_name(TransactionRole::Unknown) == "Unknown"@ && role_from_db("Unknown"@) == Some(TransactionRole::Unknown),
{
    lemma_db_role_round_trip(TransactionRole::Income);
    lemma_db_role_round_trip(TransactionRole::BusinessExp);
    lemma_db_role_round_trip(TransactionRole::Salary);
    lemma_db_role_round_trip(TransactionRole::TaxExempt);
    lemma_db_role_round_trip(TransactionRole::Utilities);
    lemma_db_role_round_trip(TransactionRole::Rent);
    lemma_db_role_round_trip(TransactionRole::Relief);
    lemma_db_role_round_trip(TransactionRole::Deduction);
    lemma_db_role_round_trip(TransactionRole::PersonalExp);
    lemma_db_role_round_trip(TransactionRole::PassThrough);
    lemma_db_role_round_trip(TransactionRole::Unknown);
}

/// Reads a stored role name back; any other name is a query error naming it.
pub fn parse_role(raw: &str) -> (r: Result<TransactionRole, DbError>)
    ensures
        match role_from_db(raw@) {
            Some(role) => r == Ok::<TransactionRole, DbError>(role),
            None => r matches Err(DbError::QueryError(m)) && m@ == "unsupported lexicon role: "@ + raw@,
        },
{
    let name = String::from_str(raw);
    if text_is(&name, "Income") {
        Ok(TransactionRole::Income)
    } else if text_is(&name, "BusinessExp") {
        Ok(TransactionRole::BusinessExp)
    } else if text_is(&name, "Salary") {
        Ok(TransactionRole::Salary)
    } else if text_is(&name, "TaxExempt") {
        Ok(TransactionRole::TaxExempt)
    } else if text_is(&name, "Utilities") {
        Ok(TransactionRole::Utilities)
    } else if text_is(&name, "Rent") {
        Ok(TransactionRole::Rent)
    } else if text_is(&name, "Relief") {
        Ok(TransactionRole::Relief)
    } else if text_is(&name, "Deduction") {
        Ok(TransactionRole::Deduction)
    } else if text_is(&name, "PersonalExp") {
        Ok(TransactionRole::PersonalExp)
    } else if text_is(&name, "Unknown") {
        Ok(TransactionRole::Unknown)
    } else if text_is(&name, "PassThrough") {
        Ok(TransactionRole::PassThrough)
    } else {
        let mut m = String::from_str("unsupported lexicon role: ");
        m.append(raw);
        Err(DbError::QueryError(m))
    }
}


/// A row of the lexicon categories table.
#[derive(Debug, Clone)]
pub struct CategoryRow {
    pub id: u128,
    pub name: String,
}

/// A row of the lexicon entries table, its JSON columns already decoded.
#[derive(Debug, Clone)]
pub struct EntryRow {
    pub category_id: u128,
    pub sub_category: String,
    pub role: String,
    pub keywords: Vec<String>,
    pub patterns: Vec<Vec<String>>,
}

/// The name filed under `id`: the last category row with that id.
pub open spec fn category_name(cats: Seq<CategoryRow>, id: u128) -> Option<Seq<char>>
    decreases cats.len(),
{
    if cats.len() == 0 {
        None
    } else if cats.last().id == id {
        Some(cats.last().name@)
    } else {
        category_name(cats.drop_last(), id)
    }
}

/// The first position of `key` among the keys.
pub open spec fn key_index<V>(s: Seq<(Seq<char>, V)>, key: Seq<char>) -> Option<int>
    decreases s.len(),
{
    if s.len() == 0 {
        None
    } else {
        match key_index(s.drop_last(), key) {
            Some(i) => Some(i),
            None => if s.last().0 == key {
                Some(s.len() - 1)
            } else {
                None
            },
        }
    }
}

/// `value` filed under `key`, replacing what was there (a map's insert, keeping the
/// key's first position).
pub open spec fn put<V>(s: Seq<(Seq<char>, V)>, key: Seq<char>, value: V) -> Seq<(Seq<char>, V)> {
    match key_index(s, key) {
        Some(i) => s.update(i, (key, value)),
        None => s.push((key, value)),
    }
}

/// A rule filed under its category and sub-category.
pub open spec fn put_rule(
    lex: Seq<(Seq<char>, Seq<(Seq<char>, RuleView)>)>,
    category: Seq<char>,
    sub: Seq<char>,
    rule: RuleView,
) -> Seq<(Seq<char>, Seq<(Seq<char>, RuleView)>)> {
    match key_index(lex, category) {
        Some(i) => lex.update(i, (category, put(lex[i].1, sub, rule))),
        None => lex.push((category, seq![(sub, rule)])),
    }
}

/// The lexicon the rows make, or the message of the first row's error: a row whose
/// category is missing, or whose role name is not one the engine knows.
pub open spec fn assembled(cats: Seq<CategoryRow>, entries: Seq<EntryRow>) -> Result<
    Seq<(Seq<char>, Seq<(Seq<char>, RuleView)>)>,
    Seq<char>,
>
    decreases entries.len(),
{
    if entries.len() == 0 {
        Ok(Seq::empty())
    } else {
        match assembled(cats, entries.drop_last()) {
            Err(m) => Err(m),
            Ok(lex) => {
                let e = entries.last();
                match category_name(cats, e.category_id) {
                    None => Err("lexicon entry points to a missing category"@),
                    Some(name) => match role_from_db(e.role@) {
                        None => Err("unsupported lexicon role: "@ + e.role@),
                        Some(role) => Ok(put_rule(
                            lex,
                            name,
                            e.sub_category@,
                            RuleView {
                                role: Some(role),
                                keywords: texts_view(e.keywords@),
                                patterns: patterns_view(e.patterns@),
                            },
                        )),
                    },
                }
            },
        }
    }
}

proof fn lemma_key_index<V>(s: Seq<(Seq<char>, V)>, key: Seq<char>, n: int)
    requires
        0 <= n <= s.len(),
        forall|m: int| 0 <= m < n ==> s[m].0 != key,
    ensures
        n < s.len() && s[n].0 == key ==> key_index(s, key) == Some(n),
        n == s.len() ==> key_index(s, key) is None,
    decreases s.len(),
{
    if s.len() > 0 {
        if n < s.len() {
            if n < s.len() - 1 {
                lemma_key_index(s.drop_last(), key, n);
            } else {
                lemma_key_index(s.drop_last(), key, n);
            }
        } else {
            lemma_key_index(s.drop_last(), key, n - 1);
        }
    }
}

proof fn lemma_assembled_err(cats: Seq<CategoryRow>, entries: Seq<EntryRow>, k: int)
    requires
        0 <= k <= entries.len(),
        assembled(cats, entries.take(k)) is Err,
    ensures
        assembled(cats, entries) == assembled(cats, entries.take(k)),
    decreases entries.len() - k,
{
    if k == entries.len() {
        assert(entries.take(k) =~= entries);
    } else {
        assert(entries.drop_last().take(k) =~= entries.take(k));
        lemma_assembled_err(cats, entries.drop_last(), k);
    }
}

/// The keys are distinct.
pub open spec fn keys_distinct<V>(s: Seq<(Seq<char>, V)>) -> bool {
    forall|i: int, j: int| 0 <= i < j < s.len() ==> (#[trigger] s[i]).0 != (#[trigger] s[j]).0
}

/// One entry per category, and within each category one rule per sub-category.
pub open spec fn lexicon_keys_distinct(lex: Seq<(Seq<char>, Seq<(Seq<char>, RuleView)>)>) -> bool {
    &&& keys_distinct(lex)
    &&& forall|i: int| 0 <= i < lex.len() ==> keys_distinct(#[trigger] lex[i].1)
}

proof fn lemma_key_index_found<V>(s: Seq<(Seq<char>, V)>, key: Seq<char>)
    ensures
        key_index(s, key) matches Some(i) ==> 0 <= i < s.len() && s[i].0 == key,
        key_index(s, key) is None ==> forall|m: int| 0 <= m < s.len() ==> (#[trigger] s[m]).0 != key,
    decreases s.len(),
{
    if s.len() > 0 {
        lemma_key_index_found(s.drop_last(), key);
        if key_index(s, key) is None {
            assert forall|m: int| 0 <= m < s.len() implies (#[trigger] s[m]).0 != key by {
                if m < s.len() - 1 {
                    assert(s[m] == s.drop_last()[m]);
                }
            }
        }
    }
}

proof fn lemma_put_distinct<V>(s: Seq<(Seq<char>, V)>, key: Seq<char>, value: V)
    requires
        keys_distinct(s),
    ensures
        keys_distinct(put(s, key, value)),
{
    lemma_key_index_found(s, key);
    let r = put(s, key, value);
    assert forall|i: int, j: int| 0 <= i < j < r.len() implies (#[trigger] r[i]).0 != (#[trigger] r[j]).0 by {
        match key_index(s, key) {
            Some(k) => {
                assert(r[i].0 == s[i].0);
                assert(r[j].0 == s[j].0);
            },
            None => {
                if j == s.len() {
                    assert(r[i] == s[i]);
                } else {
                    assert(r[i] == s[i] && r[j] == s[j]);
                }
            },
        }
    }
}

proof fn lemma_put_rule_distinct(
    lex: Seq<(Seq<char>, Seq<(Seq<char>, RuleView)>)>,
    category: Seq<char>,
    sub: Seq<char>,
    rule: RuleView,
)
    requires
        lexicon_keys_distinct(lex),
    ensures
        lexicon_keys_distinct(put_rule(lex, category, sub, rule)),
{
    lemma_key_index_found(lex, category);
    let r = put_rule(lex, category, sub, rule);
    match key_index(lex, category) {
        Some(k) => {
            lemma_put_distinct(lex[k].1, sub, rule);
            assert forall|i: int, j: int| 0 <= i < j < r.len() implies (#[trigger] r[i]).0 != (#[trigger] r[j]).0 by {
                assert(r[i].0 == lex[i].0);
                assert(r[j].0 == lex[j].0);
            }
            assert forall|i: int| 0 <= i < r.len() implies keys_distinct(#[trigger] r[i].1) by {
                if i != k {
                    assert(r[i] == lex[i]);
                }
            }
        },
        None => {
            assert forall|i: int, j: int| 0 <= i < j < r.len() implies (#[trigger] r[i]).0 != (#[trigger] r[j]).0 by {
                if j == lex.len() {
                    assert(r[i] == lex[i]);
                } else {
                    assert(r[i] == lex[i] && r[j] == lex[j]);
                }
            }
            assert forall|i: int| 0 <= i < r.len() implies keys_distinct(#[trigger] r[i].1) by {
                if i < lex.len() {
                    assert(r[i] == lex[i]);
                }
            }
        },
    }
}

/// The rebuilt lexicon holds each category once, and each sub-category of a category
/// once (a later row for the same pair replaces the earlier rule).
pub proof fn lemma_assembled_keys_distinct(cats: Seq<CategoryRow>, entries: Seq<EntryRow>)
    ensures
        assembled(cats, entries) matches Ok(lex) ==> lexicon_keys_distinct(lex),
    decreases entries.len(),
{
    if entries.len() > 0 {
        lemma_assembled_keys_distinct(cats, entries.drop_last());
        match assembled(cats, entries.drop_last()) {
            Ok(lex) => {
                let e = entries.last();
                match category_name(cats, e.category_id) {
                    Some(name) => match role_from_db(e.role@) {
                        Some(role) => {
                            lemma_put_rule_distinct(
                                lex,
                                name,
                                e.sub_category@,
                                RuleView { role: Some(role), keywords: texts_view(e.keywords@), patterns: patterns_view(e.patterns@) },
                            );
                        },
                        None => {},
                    },
                    None => {},
                }
            },
            Err(_) => {},
        }
    }
}

fn find_category(cats: &Vec<CategoryRow>, id: u128) -> (r: Option<String>)
    ensures
        match r {
            Some(n) => category_name(cats@, id) == Some(n@),
            None => category_name(cats@, id) is None,
        },
{
    let mut i: usize = cats.len();
    proof {
        assert(cats@.take(cats@.len() as int) =~= cats@);
    }
    while i > 0
        invariant
            i <= cats.len(),
            category_name(cats@, id) == category_name(cats@.take(i as int), id),
        decreases i,
    {
        proof {
            assert(cats@.take(i as int).drop_last() =~= cats@.take(i - 1));
        }
        if cats[i - 1].id == id {
            return Some(cats[i - 1].name.clone());
        }
        i = i - 1;
    }
    None
}

/// Rebuilds the nested lexicon from the category and entry rows, in the rows' order.
pub fn assemble_lexicon(categories: &Vec<CategoryRow>, entries: &Vec<EntryRow>) -> (r: Result<LexiconFile, DbError>)
    ensures
        match assembled(categories@, entries@) {
            Ok(lex) => r matches Ok(l) && l.view_of() == lex,
            Err(m) => r matches Err(DbError::QueryError(t)) && t@ == m,
        },
{
    let mut lex: Vec<(String, Vec<(String, CategoryRule)>)> = Vec::new();
    let mut i: usize = 0;
    proof {
        assert(entries@.take(0) =~= Seq::<EntryRow>::empty());
        assert(categories_view(lex@) =~= Seq::<(Seq<char>, Seq<(Seq<char>, RuleView)>)>::empty());
    }
    while i < entries.len()
        invariant
            i <= entries.len(),
            assembled(categories@, entries@.take(i as int)) == Ok::<Seq<(Seq<char>, Seq<(Seq<char>, RuleView)>)>, Seq<char>>(
                categories_view(lex@),
            ),
        decreases entries.len() - i,
    {
        let e = &entries[i];
        proof {
            assert(entries@.take(i + 1).drop_last() =~= entries@.take(i as int));
            assert(entries@.take(i + 1).last() == *e);
        }
        let name = match find_category(categories, e.category_id) {
            Some(n) => n,
            None => {
                proof {
                    lemma_assembled_err(categories@, entries@, i + 1);
                }
                return Err(DbError::QueryError(String::from_str("lexicon entry points to a missing category")));
            },
        };
        let role = match parse_role(e.role.as_str()) {
            Ok(r) => r,
            Err(err) => {
                proof {
                    lemma_assembled_err(categories@, entries@, i + 1);
                }
                return Err(err);
            },
        };
        let rule = CategoryRule { role: Some(role), keywords: copy_words(&e.keywords), patterns: copy_patterns(&e.patterns) };
        put_rule_exec(&mut lex, name, e.sub_category.clone(), rule);
        i = i + 1;
    }
    proof {
        assert(entries@.take(entries.len() as int) =~= entries@);
    }
    Ok(LexiconFile { categories: lex })
}

fn copy_patterns(v: &Vec<Vec<String>>) -> (r: Vec<Vec<String>>)
    ensures
        patterns_view(r@) == patterns_view(v@),
{
    let mut out: Vec<Vec<String>> = Vec::new();
    let mut i: usize = 0;
    while i < v.len()
        invariant
            i <= v.len(),
            patterns_view(out@) == patterns_view(v@.take(i as int)),
        decreases v.len() - i,
    {
        out.push(copy_words(&v[i]));
        proof {
            assert(patterns_view(v@.take(i + 1)) =~= patterns_view(v@.take(i as int)).push(texts_view(v@[i as int]@)));
            assert(patterns_view(out@) =~= patterns_view(v@.take(i + 1)));
        }
        i = i + 1;
    }
    proof {
        assert(v@.take(v.len() as int) =~= v@);
    }
    out
}

/// Files `rule` under `sub` in a category's rules.
fn put_sub(subs: &mut Vec<(String, CategoryRule)>, sub: String, rule: CategoryRule)
    ensures
        subs_view(final(subs)@) == put(subs_view(old(subs)@), sub@, rule.view_of()),
{
    let ghost before = subs_view(subs@);
    let mut j: usize = 0;
    while j < subs.len()
        invariant
            j <= subs.len(),
            before == subs_view(subs@),
            before == subs_view(old(subs)@),
            forall|m: int| 0 <= m < j ==> before[m].0 != sub@,
        decreases subs.len() - j,
    {
        if subs[j].0 == sub {
            proof {
                lemma_key_index(before, sub@, j as int);
            }
            let ghost entry = (sub@, rule.view_of());
            subs.set(j, (sub, rule));
            proof {
                assert(subs_view(subs@) =~= before.update(j as int, entry));
            }
            return;
        }
        j = j + 1;
    }
    proof {
        lemma_key_index(before, sub@, j as int);
    }
    let ghost entry = (sub@, rule.view_of());
    subs.push((sub, rule));
    proof {
        assert(subs_view(subs@) =~= before.push(entry));
    }
}

fn put_rule_exec(lex: &mut Vec<(String, Vec<(String, CategoryRule)>)>, category: String, sub: String, rule: CategoryRule)
    ensures
        categories_view(final(lex)@) == put_rule(
            categories_view(old(lex)@),
            category@,
            sub@,
            rule.view_of(),
        ),
{
    let ghost before = categories_view(lex@);
    let ghost rv = rule.view_of();
    let mut i: usize = 0;
    while i < lex.len()
        invariant
            i <= lex.len(),
            before == categories_view(lex@),
            before == categories_view(old(lex)@),
            rv == rule.view_of(),
            forall|m: int| 0 <= m < i ==> before[m].0 != category@,
        decreases lex.len() - i,
    {
        if lex[i].0 == category {
            proof {
                lemma_key_index(before, category@, i as int);
            }
            let (name, mut subs) = lex.remove(i);
            let ghost old_subs = subs_view(subs@);
            proof {
                assert(old_subs == before[i as int].1);
            }
            put_sub(&mut subs, sub, rule);
            let ghost entry = (name@, subs_view(subs@));
            lex.insert(i, (name, subs));
            proof {
                assert(categories_view(lex@) =~= before.update(i as int, entry));
            }
            return;
        }
        i = i + 1;
    }
    proof {
        lemma_key_index(before, category@, i as int);
    }
    let ghost cv = category@;
    let ghost sv = sub@;
    let mut subs: Vec<(String, CategoryRule)> = Vec::new();
    subs.push((sub, rule));
    let ghost entry = (cv, subs_view(subs@));
    lex.push((category, subs));
    proof {
        assert(entry.1 =~= seq![(sv, rv)]);
        assert(categories_view(lex@) =~= before.push(entry));
    }
}

} // verus!
