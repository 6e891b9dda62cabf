//! Deterministic transaction categorisation: narration words are matched against
//! multi-word patterns, then single keywords, after misspellings have been corrected
//! against the keyword dictionary; the role is then refined by the direction of the
//! money and the kind of tax payer.

use vstd::prelude::*;
use rayon::iter::{IntoParallelIterator, ParallelIterator};
use crate::domain::entities::{CategoryRule, LexiconFile, ParsedTransaction, RawStatement, RuleView, TaxEntity, TransactionRole, subs_view};
use crate::money::{Amount, DecimalView, decimal_parse, zero_view};
use crate::text::{all_ascii, is_digit_or_comma, is_ascii_digit, lemma_ascii_upper_stable, is_ws, upper_char, is_whitespace, string_of, unicode_upper, unicode_alphanumeric, is_alphanumeric, to_uppercase, chars_of, texts_view, digit_run_end, digit_comma_run_end, without_commas, digit_end, digit_comma_end, text_before, text_is, text_lt, lemma_text_before_total, lemma_text_before_transitive};

verus! {

/// A multi-word rule: every one of its words must occur in the narration.
#[derive(Debug)]
pub struct PatternRule {
    pub required_words: Vec<String>,
    pub role: TransactionRole,
    pub confidence: u32,
}

/// What a pattern rule says.
pub struct PatternView {
    pub words: Seq<Seq<char>>,
    pub role: TransactionRole,
    pub confidence: u32,
}

impl PatternRule {
    pub open spec fn view_of(self) -> PatternView {
        PatternView { words: self.required_words@.map_values(|w: String| w@), role: self.role, confidence: self.confidence }
    }
}

pub struct TransactionCategorizer {
    keywords_container: Vec<(String, TransactionRole)>,
    pattern_container: Vec<(String, Vec<PatternRule>)>,
    dictionary_words: Vec<String>,
}

/// The value filed under `w` in a table of entries: that of the first entry for it.
pub open spec fn first_entry<V>(table: Seq<(Seq<char>, V)>, w: Seq<char>) -> Option<V>
    decreases table.len(),
{
    if table.len() == 0 {
        None
    } else if table[0].0 == w {
        Some(table[0].1)
    } else {
        first_entry(table.drop_first(), w)
    }
}

/// The role of a word in a keyword table.
pub open spec fn lookup_keyword(table: Seq<(Seq<char>, TransactionRole)>, w: Seq<char>) -> Option<TransactionRole> {
    first_entry(table, w)
}

/// The patterns filed under a word.
pub open spec fn lookup_patterns(table: Seq<(Seq<char>, Seq<PatternView>)>, w: Seq<char>) -> Option<Seq<PatternView>> {
    first_entry(table, w)
}

/// Every word of the pattern is among `words`.
pub open spec fn pattern_applies(p: PatternView, words: Seq<Seq<char>>) -> bool {
    forall|k: int| 0 <= k < p.words.len() ==> words.contains(#[trigger] p.words[k])
}

/// The first pattern of `list`, from position `j` on, that applies to `words`.
pub open spec fn first_applicable(list: Seq<PatternView>, words: Seq<Seq<char>>, j: int) -> Option<PatternView>
    decreases list.len() - j,
{
    if j < 0 || j >= list.len() {
        None
    } else if pattern_applies(list[j], words) {
        Some(list[j])
    } else {
        first_applicable(list, words, j + 1)
    }
}

/// Walking `words` from position `i` in order, the first pattern filed under the
/// current word that applies to all of `words`.
pub open spec fn pattern_match_from(
    table: Seq<(Seq<char>, Seq<PatternView>)>,
    words: Seq<Seq<char>>,
    i: int,
) -> Option<PatternView>
    decreases words.len() - i,
{
    if i < 0 || i >= words.len() {
        None
    } else {
        match lookup_patterns(table, words[i]) {
            Some(list) => match first_applicable(list, words, 0) {
                Some(p) => Some(p),
                None => pattern_match_from(table, words, i + 1),
            },
            None => pattern_match_from(table, words, i + 1),
        }
    }
}

/// Keyword result: some word is a keyword, and every keyword among the words has the
/// same role.
pub open spec fn keyword_verdict(table: Seq<(Seq<char>, TransactionRole)>, words: Seq<Seq<char>>) -> Option<TransactionRole> {
    if exists|i: int| 0 <= i < words.len() && lookup_keyword(table, words[i]) is Some {
        let i = choose|i: int| 0 <= i < words.len() && lookup_keyword(table, words[i]) is Some;
        let role = lookup_keyword(table, words[i])->0;
        if forall|j: int| 0 <= j < words.len() && lookup_keyword(table, words[j]) is Some ==> lookup_keyword(table, words[j]) == Some(role) {
            Some(role)
        } else {
            None
        }
    } else {
        None
    }
}

/// Patterns decide first; failing that, keywords with confidence 100; otherwise unknown.
pub open spec fn rules_verdict(
    keywords: Seq<(Seq<char>, TransactionRole)>,
    patterns: Seq<(Seq<char>, Seq<PatternView>)>,
    words: Seq<Seq<char>>,
) -> (TransactionRole, u32) {
    match pattern_match_from(patterns, words, 0) {
        Some(p) => (p.role, p.confidence),
        None => match keyword_verdict(keywords, words) {
            Some(r) => (r, 100),
            None => (TransactionRole::Unknown, 0),
        },
    }
}


/// The Levenshtein distance: the least number of single-character insertions, deletions
/// and substitutions that turn `a` into `b`.
pub open spec fn edit_distance(a: Seq<char>, b: Seq<char>) -> nat
    decreases a.len() + b.len(),
{
    if a.len() == 0 {
        b.len()
    } else if b.len() == 0 {
        a.len()
    } else {
        let substitute = edit_distance(a.drop_first(), b.drop_first()) + (if a[0] == b[0] { 0nat } else { 1nat });
        let delete = edit_distance(a.drop_first(), b) + 1;
        let insert = edit_distance(a, b.drop_first()) + 1;
        if substitute <= delete && substitute <= insert {
            substitute
        } else if delete <= insert {
            delete
        } else {
            insert
        }
    }
}

/// `strsim::levenshtein`: as its documentation says, the minimum number of insertions,
/// deletions and substitutions (of characters) required to change one string into the
/// other.
#[verifier::external_body]
fn levenshtein(a: &str, b: &str) -> (r: usize)
    ensures
        r == edit_distance(a@, b@),
{
    strsim::levenshtein(a, b)
}

/// The length in bytes of the UTF-8 encoding (`str::len`).
pub open spec fn byte_len(s: Seq<char>) -> int {
    (vstd::utf8::encode_utf8(s).len() as usize) as int
}

/// Dictionary words whose byte length is within 4 of the word's are candidates.
pub open spec fn is_candidate(c: Seq<char>, w: Seq<char>) -> bool {
    -4 <= byte_len(c) - byte_len(w) <= 4
}

/// Among the first `n` dictionary words, the first candidate at the least edit distance
/// from `w` (`Iterator::min_by_key` keeps the first of equal minima).
pub open spec fn closest_candidate(dict: Seq<Seq<char>>, w: Seq<char>, n: int) -> Option<Seq<char>>
    decreases n,
{
    if n <= 0 || n > dict.len() {
        None
    } else {
        let prev = closest_candidate(dict, w, n - 1);
        let c = dict[n - 1];
        if is_candidate(c, w) && (prev is None || edit_distance(w, c) < edit_distance(w, prev->0)) {
            Some(c)
        } else {
            prev
        }
    }
}

/// A keyword stays; any other word becomes the closest dictionary word when that one is
/// at most two edits away, and stays otherwise.
pub open spec fn corrected_word(table: Seq<(Seq<char>, TransactionRole)>, dict: Seq<Seq<char>>, w: Seq<char>) -> Seq<char> {
    if lookup_keyword(table, w) is Some {
        w
    } else {
        match closest_candidate(dict, w, dict.len() as int) {
            Some(c) => if edit_distance(w, c) <= 2 {
                c
            } else {
                w
            },
            None => w,
        }
    }
}

/// The words in order of first occurrence, each once (what collecting into a set keeps).
pub open spec fn dedupe(s: Seq<Seq<char>>) -> Seq<Seq<char>>
    decreases s.len(),
{
    if s.len() == 0 {
        s
    } else {
        let d = dedupe(s.drop_last());
        if d.contains(s.last()) {
            d
        } else {
            d.push(s.last())
        }
    }
}

/// Every word corrected, duplicates dropped.
pub open spec fn corrected_words(table: Seq<(Seq<char>, TransactionRole)>, dict: Seq<Seq<char>>, words: Seq<Seq<char>>) -> Seq<Seq<char>> {
    dedupe(words.map_values(|w: Seq<char>| corrected_word(table, dict, w)))
}


/// The words that announce a charge: `CHG`, `COMM`, `VAT`, `FEE`, `DUTY`, `LEVY`, `EMTL`.
pub open spec fn charge_words() -> Seq<Seq<char>> {
    seq![
        seq!['C', 'H', 'G'],
        seq!['C', 'O', 'M', 'M'],
        seq!['V', 'A', 'T'],
        seq!['F', 'E', 'E'],
        seq!['D', 'U', 'T', 'Y'],
        seq!['L', 'E', 'V', 'Y'],
        seq!['E', 'M', 'T', 'L'],
    ]
}

/// `kw` (upper case) occurs at `i`, letters compared without regard to case.
pub open spec fn word_at_ignoring_case(s: Seq<char>, i: int, kw: Seq<char>) -> bool {
    &&& 0 <= i
    &&& i + kw.len() <= s.len()
    &&& forall|k: int| 0 <= k < kw.len() ==> upper_char(#[trigger] s[i + k]) == kw[k]
}

/// Where the first charge word (in the order listed) that occurs at `i` ends.
pub open spec fn charge_word_end(s: Seq<char>, i: int, w: int) -> Option<int>
    decreases 7 - w,
{
    if w < 0 || w >= 7 {
        None
    } else if word_at_ignoring_case(s, i, charge_words()[w]) {
        Some(i + charge_words()[w].len())
    } else {
        charge_word_end(s, i, w + 1)
    }
}

pub open spec fn is_separator(c: char) -> bool {
    c == ':' || is_ws(c)
}

/// The end of the run of separators (`[:\s]*`) starting at `j`.
pub open spec fn separator_run_end(s: Seq<char>, j: int) -> int
    decreases s.len() - j,
{
    if 0 <= j < s.len() && is_separator(s[j]) {
        separator_run_end(s, j + 1)
    } else {
        j
    }
}

/// A charge starting at `i`: a charge word, at least one separator, then an amount made
/// of digits and commas, optionally followed by a point and more digits. Gives where the
/// amount starts and ends.
pub open spec fn charge_at(s: Seq<char>, i: int) -> Option<(int, int)> {
    match charge_word_end(s, i, 0) {
        None => None,
        Some(j) => {
            let k = separator_run_end(s, j);
            if k == j {
                None
            } else {
                let m = digit_comma_run_end(s, k);
                if m == k {
                    None
                } else if m < s.len() && s[m] == '.' {
                    Some((k, digit_run_end(s, m + 1)))
                } else {
                    Some((k, m))
                }
            }
        },
    }
}

/// The leftmost charge at or after `i`.
pub open spec fn first_charge(s: Seq<char>, i: int) -> Option<(int, int)>
    decreases s.len() - i,
{
    if i < 0 || i >= s.len() {
        None
    } else {
        match charge_at(s, i) {
            Some(x) => Some(x),
            None => first_charge(s, i + 1),
        }
    }
}

proof fn lemma_digit_comma_run(s: Seq<char>, j: int, i: int)
    requires
        0 <= j <= i < digit_comma_run_end(s, j),
    ensures
        is_digit_or_comma(s[i]),
    decreases s.len() - j,
{
    if i > j {
        lemma_digit_comma_run(s, j + 1, i);
    }
}

proof fn lemma_digit_run(s: Seq<char>, j: int, i: int)
    requires
        0 <= j <= i < digit_run_end(s, j),
    ensures
        is_ascii_digit(s[i]),
    decreases s.len() - j,
{
    if i > j {
        lemma_digit_run(s, j + 1, i);
    }
}

proof fn lemma_digit_comma_run_end_bounds(s: Seq<char>, j: int)
    requires
        0 <= j <= s.len(),
    ensures
        j <= digit_comma_run_end(s, j) <= s.len(),
        j <= digit_run_end(s, j) <= s.len(),
    decreases s.len() - j,
{
    if j < s.len() {
        lemma_digit_comma_run_end_bounds(s, j + 1);
    }
}

/// A charge amount is made of digits, commas and at most one point: no minus sign.
proof fn lemma_charge_has_no_minus(s: Seq<char>, i: int, k: int, e: int)
    requires
        0 <= i,
        first_charge(s, i) == Some((k, e)),
    ensures
        forall|t: int| k <= t < e ==> s[t] != '-',
    decreases s.len() - i,
{
    if i < s.len() {
        match charge_at(s, i) {
            Some(x) => {
                let j = charge_word_end(s, i, 0)->Some_0;
                let k2 = separator_run_end(s, j);
                let m = digit_comma_run_end(s, k2);
                assert(k2 == k);
                if 0 <= k <= s.len() {
                    lemma_digit_comma_run_end_bounds(s, k);
                }
                assert forall|t: int| k <= t < e implies s[t] != '-' by {
                    if t < m {
                        lemma_digit_comma_run(s, k, t);
                    } else if t == m {
                    } else {
                        lemma_digit_run(s, m + 1, t);
                    }
                }
            },
            None => {
                lemma_charge_has_no_minus(s, i + 1, k, e);
            },
        }
    }
}

/// The charge in a narration: the leftmost charge amount, commas removed, parsed as a
/// decimal; zero when there is none or it does not parse.
pub open spec fn charge_of(narration: Seq<char>) -> DecimalView {
    match first_charge(narration, 0) {
        Some((k, e)) => match decimal_parse(without_commas(narration.subrange(k, e))) {
            Some(v) => v,
            None => zero_view(),
        },
        None => zero_view(),
    }
}


/// Splitting the first `n` characters into runs of alphanumeric characters: the runs
/// completed so far and the run in progress.
pub open spec fn split_state(s: Seq<char>, n: int) -> (Seq<Seq<char>>, Seq<char>)
    decreases n,
{
    if n <= 0 || n > s.len() {
        (Seq::empty(), Seq::empty())
    } else {
        let (ws, cur) = split_state(s, n - 1);
        let c = s[n - 1];
        if unicode_alphanumeric(c) {
            (ws, cur.push(c))
        } else if cur.len() > 0 {
            (ws.push(cur), Seq::empty())
        } else {
            (ws, Seq::empty())
        }
    }
}

/// The maximal runs of alphanumeric characters, in order (splitting at every other
/// character and dropping the empty pieces).
pub open spec fn alnum_words(s: Seq<char>) -> Seq<Seq<char>> {
    let (ws, cur) = split_state(s, s.len() as int);
    if cur.len() > 0 {
        ws.push(cur)
    } else {
        ws
    }
}

/// The distinct upper-case words of a narration.
pub open spec fn narration_words(narration: Seq<char>) -> Seq<Seq<char>> {
    dedupe(alnum_words(unicode_upper(narration)))
}

/// Role and confidence the categoriser gives a statement row.
pub open spec fn analysis_of(
    cat: TransactionCategorizer,
    narration: Seq<char>,
    amount: DecimalView,
    entity: TaxEntity,
) -> (TransactionRole, u32) {
    let words = corrected_words(cat.keyword_table(), cat.dictionary(), narration_words(narration));
    let (base, confidence) = rules_verdict(cat.keyword_table(), cat.pattern_table(), words);
    (refine_spec(entity, base, amount), confidence)
}

/// A personal income tax payer: salary and income paid out are personal spending, rent
/// paid stays rent (for the relief) while rent received is income, expenses received
/// back are tax exempt, and money received for personal items is income (trading).
pub open spec fn refine_for_pit_spec(role: TransactionRole, amount: DecimalView) -> TransactionRole {
    match role {
        TransactionRole::Salary if amount.negative => TransactionRole::PersonalExp,
        TransactionRole::Rent if amount.negative => TransactionRole::Rent,
        TransactionRole::Rent if !amount.negative => TransactionRole::Income,
        TransactionRole::Income if amount.negative => TransactionRole::PersonalExp,
        TransactionRole::Utilities if !amount.negative => TransactionRole::TaxExempt,
        TransactionRole::BusinessExp if !amount.negative => TransactionRole::TaxExempt,
        TransactionRole::PersonalExp if !amount.negative => TransactionRole::Income,
        _ => role,
    }
}

/// A company: salary and rent paid out are business expenses, rent received is income,
/// utilities received back are tax exempt, and money received for expenses is income.
pub open spec fn refine_for_llc_spec(role: TransactionRole, amount: DecimalView) -> TransactionRole {
    match role {
        TransactionRole::Salary if amount.negative => TransactionRole::BusinessExp,
        TransactionRole::Rent if amount.negative => TransactionRole::BusinessExp,
        TransactionRole::Rent if !amount.negative => TransactionRole::Income,
        TransactionRole::Utilities if !amount.negative => TransactionRole::TaxExempt,
        TransactionRole::BusinessExp if !amount.negative => TransactionRole::Income,
        TransactionRole::PersonalExp if !amount.negative => TransactionRole::Income,
        _ => role,
    }
}

/// How the direction of the money refines a role found by the rules. For a company: salary
/// or rent paid out is a business expense; rent received, and money received against a
/// business or personal expense, is income; utilities received are tax exempt. For a
/// person: salary or income paid out is personal spending; rent paid stays rent while rent
/// received is income; utilities or business expenses received are tax exempt; money
/// received against personal spending is income. Every other role keeps its role.
pub proof fn lemma_direction_refines_role(role: TransactionRole, amount: DecimalView)
    ensures
        amount.negative && (role == TransactionRole::Salary || role == TransactionRole::Rent) ==> refine_spec(
            TaxEntity::LLC,
            role,
            amount,
        ) == TransactionRole::BusinessExp,
        !amount.negative && (role == TransactionRole::Rent || role == TransactionRole::BusinessExp || role
            == TransactionRole::PersonalExp) ==> refine_spec(TaxEntity::LLC, role, amount) == TransactionRole::Income,
        !amount.negative && role == TransactionRole::Utilities ==> refine_spec(TaxEntity::LLC, role, amount)
            == TransactionRole::TaxExempt,
        role != TransactionRole::Salary && role != TransactionRole::Rent && role != TransactionRole::Utilities && role
            != TransactionRole::BusinessExp && role != TransactionRole::PersonalExp ==> refine_spec(
            TaxEntity::LLC,
            role,
            amount,
        ) == role,
        amount.negative && (role == TransactionRole::Utilities || role == TransactionRole::BusinessExp || role
            == TransactionRole::PersonalExp) ==> refine_spec(TaxEntity::LLC, role, amount) == role,
        !amount.negative && role == TransactionRole::Salary ==> refine_spec(TaxEntity::LLC, role, amount) == role,
        amount.negative && (role == TransactionRole::Salary || role == TransactionRole::Income) ==> refine_spec(
            TaxEntity::PIT,
            role,
            amount,
        ) == TransactionRole::PersonalExp,
        amount.negative && role == TransactionRole::Rent ==> refine_spec(TaxEntity::PIT, role, amount)
            == TransactionRole::Rent,
        !amount.negative && (role == TransactionRole::Rent || role == TransactionRole::PersonalExp) ==> refine_spec(
            TaxEntity::PIT,
            role,
            amount,
        ) == TransactionRole::Income,
        !amount.negative && (role == TransactionRole::Utilities || role == TransactionRole::BusinessExp) ==> refine_spec(
            TaxEntity::PIT,
            role,
            amount,
        ) == TransactionRole::TaxExempt,
        role != TransactionRole::Salary && role != TransactionRole::Rent && role != TransactionRole::Income && role
            != TransactionRole::Utilities && role != TransactionRole::BusinessExp && role
            != TransactionRole::PersonalExp ==> refine_spec(TaxEntity::PIT, role, amount) == role,
        amount.negative && (role == TransactionRole::Utilities || role == TransactionRole::BusinessExp || role
            == TransactionRole::PersonalExp) ==> refine_spec(TaxEntity::PIT, role, amount) == role,
        !amount.negative && (role == TransactionRole::Salary || role == TransactionRole::Income) ==> refine_spec(
            TaxEntity::PIT,
            role,
            amount,
        ) == role,
{
}

/// The charge words are CHG, COMM, VAT, FEE, DUTY, LEVY and EMTL, in any case: each one
/// found at a position is recognised there and ends right after itself, and nothing else
/// is recognised.
pub proof fn lemma_charge_words(s: Seq<char>, i: int)
    ensures
        word_at_ignoring_case(s, i, seq!['C', 'H', 'G']) ==> charge_word_end(s, i, 0) == Some(i + 3),
        word_at_ignoring_case(s, i, seq!['C', 'O', 'M', 'M']) ==> charge_word_end(s, i, 0) == Some(i + 4),
        word_at_ignoring_case(s, i, seq!['V', 'A', 'T']) ==> charge_word_end(s, i, 0) == Some(i + 3),
        word_at_ignoring_case(s, i, seq!['F', 'E', 'E']) ==> charge_word_end(s, i, 0) == Some(i + 3),
        word_at_ignoring_case(s, i, seq!['D', 'U', 'T', 'Y']) ==> charge_word_end(s, i, 0) == Some(i + 4),
        word_at_ignoring_case(s, i, seq!['L', 'E', 'V', 'Y']) ==> charge_word_end(s, i, 0) == Some(i + 4),
        word_at_ignoring_case(s, i, seq!['E', 'M', 'T', 'L']) ==> charge_word_end(s, i, 0) == Some(i + 4),
        charge_word_end(s, i, 0) is Some ==> word_at_ignoring_case(s, i, seq!['C', 'H', 'G'])
            || word_at_ignoring_case(s, i, seq!['C', 'O', 'M', 'M']) || word_at_ignoring_case(s, i, seq!['V', 'A', 'T'])
            || word_at_ignoring_case(s, i, seq!['F', 'E', 'E']) || word_at_ignoring_case(s, i, seq!['D', 'U', 'T', 'Y'])
            || word_at_ignoring_case(s, i, seq!['L', 'E', 'V', 'Y']) || word_at_ignoring_case(
            s,
            i,
            seq!['E', 'M', 'T', 'L'],
        ),
{
    reveal_with_fuel(charge_word_end, 8);
    let ws = charge_words();
    assert(ws[0] =~= seq!['C', 'H', 'G']);
    assert(ws[1] =~= seq!['C', 'O', 'M', 'M']);
    assert(ws[2] =~= seq!['V', 'A', 'T']);
    assert(ws[3] =~= seq!['F', 'E', 'E']);
    assert(ws[4] =~= seq!['D', 'U', 'T', 'Y']);
    assert(ws[5] =~= seq!['L', 'E', 'V', 'Y']);
    assert(ws[6] =~= seq!['E', 'M', 'T', 'L']);
    if word_at_ignoring_case(s, i, seq!['C', 'H', 'G']) {
        assert(upper_char(s[i + 0]) == 'C' && upper_char(s[i + 1]) == 'H');
    }
    if word_at_ignoring_case(s, i, seq!['C', 'O', 'M', 'M']) {
        assert(upper_char(s[i + 0]) == 'C' && upper_char(s[i + 1]) == 'O');
    }
    if word_at_ignoring_case(s, i, seq!['V', 'A', 'T']) {
        assert(upper_char(s[i + 0]) == 'V');
    }
    if word_at_ignoring_case(s, i, seq!['F', 'E', 'E']) {
        assert(upper_char(s[i + 0]) == 'F');
    }
    if word_at_ignoring_case(s, i, seq!['D', 'U', 'T', 'Y']) {
        assert(upper_char(s[i + 0]) == 'D');
    }
    if word_at_ignoring_case(s, i, seq!['L', 'E', 'V', 'Y']) {
        assert(upper_char(s[i + 0]) == 'L');
    }
    if word_at_ignoring_case(s, i, seq!['E', 'M', 'T', 'L']) {
        assert(upper_char(s[i + 0]) == 'E');
    }
}

proof fn lemma_separator_run(s: Seq<char>, j: int, k: int)
    requires
        0 <= j <= k < s.len(),
        forall|t: int| j <= t < k ==> s[t] == ':' || is_ws(s[t]),
        !is_separator(s[k]),
    ensures
        separator_run_end(s, j) == k,
    decreases k - j,
{
    if j < k {
        lemma_separator_run(s, j + 1, k);
    }
}

/// A charge word followed by colons or whitespace (at least one) and then a digit is a
/// charge whose amount starts at that digit.
pub proof fn lemma_charge_follows_word(s: Seq<char>, i: int, j: int, k: int)
    requires
        charge_word_end(s, i, 0) == Some(j),
        j < k < s.len(),
        forall|t: int| j <= t < k ==> s[t] == ':' || is_ws(s[t]),
        is_ascii_digit(s[k]),
    ensures
        charge_at(s, i) matches Some((a, e)) && a == k && k < e <= s.len(),
{
    reveal_with_fuel(charge_word_end, 8);
    assert(0 <= j);
    lemma_separator_run(s, j, k);
    lemma_digit_comma_run_end_bounds(s, k);
    lemma_digit_comma_run_end_bounds(s, k + 1);
    let m = digit_comma_run_end(s, k);
    assert(m == digit_comma_run_end(s, k + 1));
    if m < s.len() && s[m] == '.' {
        lemma_digit_comma_run_end_bounds(s, m + 1);
    }
}

pub open spec fn refine_spec(entity: TaxEntity, role: TransactionRole, amount: DecimalView) -> TransactionRole {
    match entity {
        TaxEntity::PIT => refine_for_pit_spec(role, amount),
        TaxEntity::LLC => refine_for_llc_spec(role, amount),
    }
}

/// The role a category name stands for.
pub open spec fn category_role(category: Seq<char>) -> TransactionRole {
    if category == "income"@ {
        TransactionRole::Income
    } else if category == "business_exp"@ {
        TransactionRole::BusinessExp
    } else if category == "tax_exempt"@ {
        TransactionRole::TaxExempt
    } else if category == "deduction"@ {
        TransactionRole::Deduction
    } else if category == "relief"@ {
        TransactionRole::Relief
    } else if category == "personal_exp"@ {
        TransactionRole::PersonalExp
    } else if category == "pass_through"@ {
        TransactionRole::PassThrough
    } else {
        TransactionRole::Unknown
    }
}

/// The role of a sub-category by its name (`RENT`, `UTILITIES`, `SALARY`, and `SCHOOL` or
/// `TUITION` for education relief), else by its category's name.
pub open spec fn named_role(category: Seq<char>, sub: Seq<char>) -> TransactionRole {
    if sub == "RENT"@ {
        TransactionRole::Rent
    } else if sub == "UTILITIES"@ {
        TransactionRole::Utilities
    } else if sub == "SALARY"@ {
        TransactionRole::Salary
    } else if sub == "SCHOOL"@ || sub == "TUITION"@ {
        TransactionRole::Relief
    } else {
        category_role(category)
    }
}

/// The names a lexicon rule takes its role from when none is stored: the sub-categories
/// RENT, UTILITIES and SALARY name those roles and SCHOOL and TUITION name relief, whatever
/// the category; the categories income, business_exp, tax_exempt, deduction, relief,
/// personal_exp and pass_through name their roles.
pub proof fn lemma_rule_names(category: Seq<char>)
    ensures
        named_role(category, "RENT"@) == TransactionRole::Rent,
        named_role(category, "UTILITIES"@) == TransactionRole::Utilities,
        named_role(category, "SALARY"@) == TransactionRole::Salary,
        named_role(category, "SCHOOL"@) == TransactionRole::Relief,
        named_role(category, "TUITION"@) == TransactionRole::Relief,
        category_role("income"@) == TransactionRole::Income,
        category_role("business_exp"@) == TransactionRole::BusinessExp,
        category_role("tax_exempt"@) == TransactionRole::TaxExempt,
        category_role("deduction"@) == TransactionRole::Deduction,
        category_role("relief"@) == TransactionRole::Relief,
        category_role("personal_exp"@) == TransactionRole::PersonalExp,
        category_role("pass_through"@) == TransactionRole::PassThrough,
{
    reveal_strlit("RENT");
    reveal_strlit("UTILITIES");
    reveal_strlit("SALARY");
    reveal_strlit("SCHOOL");
    reveal_strlit("TUITION");
    reveal_strlit("income");
    reveal_strlit("business_exp");
    reveal_strlit("tax_exempt");
    reveal_strlit("deduction");
    reveal_strlit("relief");
    reveal_strlit("personal_exp");
    reveal_strlit("pass_through");
    assert("RENT"@.len() == 4 && "RENT"@[0] == 'R' && "RENT"@[1] == 'E');
    assert("UTILITIES"@.len() == 9 && "UTILITIES"@[0] == 'U' && "UTILITIES"@[1] == 'T');
    assert("SALARY"@.len() == 6 && "SALARY"@[0] == 'S' && "SALARY"@[1] == 'A');
    assert("SCHOOL"@.len() == 6 && "SCHOOL"@[0] == 'S' && "SCHOOL"@[1] == 'C');
    assert("TUITION"@.len() == 7 && "TUITION"@[0] == 'T' && "TUITION"@[1] == 'U');
    assert("income"@.len() == 6 && "income"@[0] == 'i' && "income"@[1] == 'n');
    assert("business_exp"@.len() == 12 && "business_exp"@[0] == 'b' && "business_exp"@[1] == 'u');
    assert("tax_exempt"@.len() == 10 && "tax_exempt"@[0] == 't' && "tax_exempt"@[1] == 'a');
    assert("deduction"@.len() == 9 && "deduction"@[0] == 'd' && "deduction"@[1] == 'e');
    assert("relief"@.len() == 6 && "relief"@[0] == 'r' && "relief"@[1] == 'e');
    assert("personal_exp"@.len() == 12 && "personal_exp"@[0] == 'p' && "personal_exp"@[1] == 'e');
    assert("pass_through"@.len() == 12 && "pass_through"@[0] == 'p' && "pass_through"@[1] == 'a');
}

/// The role a lexicon rule files its words under: the role stored with it, else the one
/// its names give.
pub open spec fn rule_role(category: Seq<char>, sub: Seq<char>, stored: Option<TransactionRole>) -> TransactionRole {
    match stored {
        Some(r) => r,
        None => named_role(category, sub),
    }
}

pub open spec fn upper_words(words: Seq<Seq<char>>) -> Seq<Seq<char>> {
    words.map_values(|w: Seq<char>| unicode_upper(w))
}

/// The keyword entries of one rule, in order: each keyword in upper case with the role.
pub open spec fn sub_keyword_entries(keywords: Seq<Seq<char>>, role: TransactionRole) -> Seq<(Seq<char>, TransactionRole)> {
    keywords.map_values(|k: Seq<char>| (unicode_upper(k), role))
}

/// The keyword entries of a category's rules, skipping rules whose role is unknown.
pub open spec fn category_keyword_entries(category: Seq<char>, subs: Seq<(Seq<char>, RuleView)>) -> Seq<(Seq<char>, TransactionRole)>
    decreases subs.len(),
{
    if subs.len() == 0 {
        Seq::empty()
    } else {
        let prev = category_keyword_entries(category, subs.drop_last());
        let role = rule_role(category, subs.last().0, subs.last().1.role);
        if role == TransactionRole::Unknown {
            prev
        } else {
            prev + sub_keyword_entries(subs.last().1.keywords, role)
        }
    }
}

/// Every key of the table is its own upper case.
pub open spec fn keys_upper_stable(t: Seq<(Seq<char>, TransactionRole)>) -> bool {
    forall|w: Seq<char>| #[trigger] first_entry(t, w) is Some ==> unicode_upper(w) == w
}

pub open spec fn ascii_texts(ws: Seq<Seq<char>>) -> bool {
    forall|k: int| 0 <= k < ws.len() ==> all_ascii(#[trigger] ws[k])
}

/// Every keyword of the rules is ASCII text.
pub open spec fn ascii_rules(subs: Seq<(Seq<char>, RuleView)>) -> bool {
    forall|j: int| 0 <= j < subs.len() ==> ascii_texts(#[trigger] subs[j].1.keywords)
}

/// Every keyword of the lexicon is ASCII text.
pub open spec fn ascii_lexicon(lex: Seq<(Seq<char>, Seq<(Seq<char>, RuleView)>)>) -> bool {
    forall|i: int| 0 <= i < lex.len() ==> ascii_rules(#[trigger] lex[i].1)
}

/// The keyword entries of a whole lexicon, in order.
pub open spec fn keyword_entries(cats: Seq<(Seq<char>, Seq<(Seq<char>, RuleView)>)>) -> Seq<(Seq<char>, TransactionRole)>
    decreases cats.len(),
{
    if cats.len() == 0 {
        Seq::empty()
    } else {
        keyword_entries(cats.drop_last()) + category_keyword_entries(cats.last().0, cats.last().1)
    }
}

/// What a map filled with `entries` in order holds for `w`: the role of the last entry
/// for it, a later entry replacing an earlier one.
pub open spec fn last_role(entries: Seq<(Seq<char>, TransactionRole)>, w: Seq<char>) -> Option<TransactionRole>
    decreases entries.len(),
{
    if entries.len() == 0 {
        None
    } else if entries.last().0 == w {
        Some(entries.last().1)
    } else {
        last_role(entries.drop_last(), w)
    }
}

/// A lexicon pattern as a rule: its distinct words in upper case, the role, confidence 100.
pub open spec fn pattern_view_of(words: Seq<Seq<char>>, role: TransactionRole) -> PatternView {
    PatternView { words: dedupe(upper_words(words)), role, confidence: 100 }
}

/// The pattern rules of one lexicon rule, in order, empty patterns skipped.
pub open spec fn sub_pattern_entries(patterns: Seq<Seq<Seq<char>>>, role: TransactionRole) -> Seq<PatternView>
    decreases patterns.len(),
{
    if patterns.len() == 0 {
        Seq::empty()
    } else {
        let prev = sub_pattern_entries(patterns.drop_last(), role);
        if patterns.last().len() == 0 {
            prev
        } else {
            prev.push(pattern_view_of(patterns.last(), role))
        }
    }
}

/// The pattern rules of a category, skipping rules whose role is unknown.
pub open spec fn category_pattern_entries(category: Seq<char>, subs: Seq<(Seq<char>, RuleView)>) -> Seq<PatternView>
    decreases subs.len(),
{
    if subs.len() == 0 {
        Seq::empty()
    } else {
        let prev = category_pattern_entries(category, subs.drop_last());
        let role = rule_role(category, subs.last().0, subs.last().1.role);
        if role == TransactionRole::Unknown {
            prev
        } else {
            prev + sub_pattern_entries(subs.last().1.patterns, role)
        }
    }
}

/// The pattern rules of a whole lexicon, in order.
pub open spec fn pattern_entries(cats: Seq<(Seq<char>, Seq<(Seq<char>, RuleView)>)>) -> Seq<PatternView>
    decreases cats.len(),
{
    if cats.len() == 0 {
        Seq::empty()
    } else {
        pattern_entries(cats.drop_last()) + category_pattern_entries(cats.last().0, cats.last().1)
    }
}

/// The rules among `ps` that mention `w`, in order.
pub open spec fn patterns_with(ps: Seq<PatternView>, w: Seq<char>) -> Seq<PatternView>
    decreases ps.len(),
{
    if ps.len() == 0 {
        Seq::empty()
    } else if ps.last().words.contains(w) {
        patterns_with(ps.drop_last(), w).push(ps.last())
    } else {
        patterns_with(ps.drop_last(), w)
    }
}

/// `p` appended to the rules filed under a word (a new list when there were none).
pub open spec fn with_rule(o: Option<Seq<PatternView>>, p: PatternView) -> Seq<PatternView> {
    match o {
        Some(l) => l.push(p),
        None => Seq::empty().push(p),
    }
}

/// What the pattern index holds for `w`: the rules that mention it, if there are any.
pub open spec fn pattern_lookup(ps: Seq<PatternView>, w: Seq<char>) -> Option<Seq<PatternView>> {
    if patterns_with(ps, w).len() > 0 {
        Some(patterns_with(ps, w))
    } else {
        None
    }
}

/// Every text comes strictly before the ones after it.
pub open spec fn strictly_ascending(d: Seq<Seq<char>>) -> bool {
    forall|i: int, j: int| 0 <= i < j < d.len() ==> text_before(#[trigger] d[i], #[trigger] d[j])
}

pub open spec fn keyword_view(v: Seq<(String, TransactionRole)>) -> Seq<(Seq<char>, TransactionRole)> {
    v.map_values(|e: (String, TransactionRole)| (e.0@, e.1))
}

pub open spec fn pattern_index_view(v: Seq<(String, Vec<PatternRule>)>) -> Seq<(Seq<char>, Seq<PatternView>)> {
    v.map_values(|e: (String, Vec<PatternRule>)| (e.0@, e.1@.map_values(|p: PatternRule| p.view_of())))
}

proof fn lemma_first_entry_update<V>(t: Seq<(Seq<char>, V)>, i: int, e: (Seq<char>, V))
    requires
        0 <= i < t.len(),
        t[i].0 == e.0,
        forall|m: int| 0 <= m < i ==> t[m].0 != e.0,
    ensures
        forall|w: Seq<char>| #[trigger] first_entry(t.update(i, e), w) == (if w == e.0 { Some(e.1) } else { first_entry(t, w) }),
    decreases i,
{
    if i > 0 {
        lemma_first_entry_update(t.drop_first(), i - 1, e);
        assert(t.update(i, e).drop_first() =~= t.drop_first().update(i - 1, e));
    } else {
        assert(t.update(i, e).drop_first() =~= t.drop_first());
    }
    assert forall|w: Seq<char>| #[trigger] first_entry(t.update(i, e), w) == (if w == e.0 { Some(e.1) } else { first_entry(t, w) }) by {
        assert(t.update(i, e)[0] == (if i == 0 { e } else { t[0] }));
        if i > 0 {
            assert(first_entry(t.update(i, e).drop_first(), w) == first_entry(t.drop_first().update(i - 1, e), w));
        }
    }
}

proof fn lemma_first_entry_push<V>(t: Seq<(Seq<char>, V)>, e: (Seq<char>, V))
    requires
        forall|m: int| 0 <= m < t.len() ==> t[m].0 != e.0,
    ensures
        forall|w: Seq<char>| #[trigger] first_entry(t.push(e), w) == (if w == e.0 { Some(e.1) } else { first_entry(t, w) }),
    decreases t.len(),
{
    if t.len() > 0 {
        lemma_first_entry_push(t.drop_first(), e);
        assert(t.push(e).drop_first() =~= t.drop_first().push(e));
    } else {
        assert(t.push(e).drop_first() =~= t);
    }
    assert forall|w: Seq<char>| #[trigger] first_entry(t.push(e), w) == (if w == e.0 { Some(e.1) } else { first_entry(t, w) }) by {
        assert(t.push(e)[0] == (if t.len() == 0 { e } else { t[0] }));
    }
}

proof fn lemma_first_entry_some<V>(t: Seq<(Seq<char>, V)>, w: Seq<char>)
    ensures
        first_entry(t, w) is Some <==> exists|m: int| 0 <= m < t.len() && t[m].0 == w,
    decreases t.len(),
{
    if t.len() > 0 {
        lemma_first_entry_some(t.drop_first(), w);
        if exists|m: int| 0 <= m < t.len() && t[m].0 == w {
            let m = choose|m: int| 0 <= m < t.len() && t[m].0 == w;
            if m > 0 {
                assert(t.drop_first()[m - 1].0 == w);
            }
        }
        if exists|m: int| 0 <= m < t.len() - 1 && t.drop_first()[m].0 == w {
            let m = choose|m: int| 0 <= m < t.len() - 1 && t.drop_first()[m].0 == w;
            assert(t[m + 1].0 == w);
        }
    }
}

proof fn lemma_last_role_push(e: Seq<(Seq<char>, TransactionRole)>, x: (Seq<char>, TransactionRole))
    ensures
        forall|w: Seq<char>| #[trigger] last_role(e.push(x), w) == (if w == x.0 { Some(x.1) } else { last_role(e, w) }),
{
    assert(e.push(x).drop_last() =~= e);
}

proof fn lemma_patterns_with_push(ps: Seq<PatternView>, p: PatternView)
    ensures
        forall|w: Seq<char>| #[trigger] pattern_lookup(ps.push(p), w) == (if p.words.contains(w) {
            Some(with_rule(pattern_lookup(ps, w), p))
        } else {
            pattern_lookup(ps, w)
        }),
{
    assert(ps.push(p).drop_last() =~= ps);
    assert forall|w: Seq<char>| #[trigger] pattern_lookup(ps.push(p), w) == (if p.words.contains(w) {
        Some(with_rule(pattern_lookup(ps, w), p))
    } else {
        pattern_lookup(ps, w)
    }) by {
        if p.words.contains(w) && patterns_with(ps, w).len() == 0 {
            assert(patterns_with(ps, w) =~= Seq::<PatternView>::empty());
        }
    }
}

/// A sequence without repeats is its own dedupe.
pub proof fn lemma_dedupe_fixed(s: Seq<Seq<char>>)
    requires
        s.no_duplicates(),
    ensures
        dedupe(s) == s,
    decreases s.len(),
{
    if s.len() > 0 {
        let p = s.drop_last();
        assert(p.no_duplicates()) by {
            assert forall|i: int, j: int| 0 <= i < j < p.len() implies p[i] != p[j] by {
                assert(p[i] == s[i] && p[j] == s[j]);
            }
        }
        lemma_dedupe_fixed(p);
        if p.contains(s.last()) {
            let m = choose|m: int| 0 <= m < p.len() && p[m] == s.last();
            assert(s[m] == s[s.len() - 1]);
        }
        assert(p.push(s.last()) =~= s);
    }
}

pub proof fn lemma_dedupe_distinct(s: Seq<Seq<char>>)
    ensures
        dedupe(s).no_duplicates(),
        forall|w: Seq<char>| dedupe(s).contains(w) <==> s.contains(w),
    decreases s.len(),
{
    if s.len() > 0 {
        lemma_dedupe_distinct(s.drop_last());
        assert forall|w: Seq<char>| s.contains(w) <==> (s.drop_last().contains(w) || w == s.last()) by {
            if s.contains(w) {
                let m = choose|m: int| 0 <= m < s.len() && s[m] == w;
                if m < s.len() - 1 {
                    assert(s.drop_last()[m] == w);
                }
            }
            if s.drop_last().contains(w) {
                let m = choose|m: int| 0 <= m < s.len() - 1 && s.drop_last()[m] == w;
                assert(s[m] == w);
            }
            if w == s.last() {
                assert(s[s.len() - 1] == w);
            }
        }
        let d = dedupe(s.drop_last());
        if !d.contains(s.last()) {
            assert forall|w: Seq<char>| d.push(s.last()).contains(w) <==> (d.contains(w) || w == s.last()) by {
                if d.push(s.last()).contains(w) {
                    let m = choose|m: int| 0 <= m < d.len() + 1 && d.push(s.last())[m] == w;
                    if m < d.len() {
                        assert(d[m] == w);
                    }
                }
                if d.contains(w) {
                    let m = choose|m: int| 0 <= m < d.len() && d[m] == w;
                    assert(d.push(s.last())[m] == w);
                }
                if w == s.last() {
                    assert(d.push(s.last())[d.len() as int] == w);
                }
            }
        }
    }
}

/// A copy of a list of texts.
fn copy_texts(v: &Vec<String>) -> (r: Vec<String>)
    ensures
        r@ == v@,
{
    let mut out: Vec<String> = Vec::new();
    let mut i: usize = 0;
    while i < v.len()
        invariant
            i <= v.len(),
            out@ == v@.take(i as int),
        decreases v.len() - i,
    {
        out.push(v[i].clone());
        proof {
            assert(v@.take(i + 1) =~= v@.take(i as int).push(v@[i as int]));
        }
        i = i + 1;
    }
    proof {
        assert(v@.take(v.len() as int) =~= v@);
    }
    out
}

impl PatternRule {
    fn duplicate(&self) -> (r: PatternRule)
        ensures
            r.view_of() == self.view_of(),
    {
        PatternRule { required_words: copy_texts(&self.required_words), role: self.role, confidence: self.confidence }
    }
}

/// The role a lexicon rule files its words under.
fn role_for(category: &String, sub: &String, stored: Option<TransactionRole>) -> (r: TransactionRole)
    ensures
        r == rule_role(category@, sub@, stored),
{
    match stored {
        Some(r) => r,
        None => {
            if text_is(sub, "RENT") {
                TransactionRole::Rent
            } else if text_is(sub, "UTILITIES") {
                TransactionRole::Utilities
            } else if text_is(sub, "SALARY") {
                TransactionRole::Salary
            } else if text_is(sub, "SCHOOL") || text_is(sub, "TUITION") {
                TransactionRole::Relief
            } else if text_is(category, "income") {
                TransactionRole::Income
            } else if text_is(category, "business_exp") {
                TransactionRole::BusinessExp
            } else if text_is(category, "tax_exempt") {
                TransactionRole::TaxExempt
            } else if text_is(category, "deduction") {
                TransactionRole::Deduction
            } else if text_is(category, "relief") {
                TransactionRole::Relief
            } else if text_is(category, "personal_exp") {
                TransactionRole::PersonalExp
            } else if text_is(category, "pass_through") {
                TransactionRole::PassThrough
            } else {
                TransactionRole::Unknown
            }
        },
    }
}

/// Files `role` under `key`, replacing what was filed there.
fn insert_keyword(table: &mut Vec<(String, TransactionRole)>, key: String, role: TransactionRole)
    ensures
        forall|w: Seq<char>| #[trigger] first_entry(keyword_view(final(table)@), w) == (if w == key@ {
            Some(role)
        } else {
            first_entry(keyword_view(old(table)@), w)
        }),
{
    let ghost before = keyword_view(table@);
    let mut i: usize = 0;
    while i < table.len()
        invariant
            i <= table.len(),
            before == keyword_view(table@),
            before == keyword_view(old(table)@),
            forall|m: int| 0 <= m < i ==> before[m].0 != key@,
        decreases table.len() - i,
    {
        if table[i].0 == key {
            let ghost k = key@;
            table.set(i, (key, role));
            proof {
                lemma_first_entry_update(before, i as int, (k, role));
                assert(keyword_view(table@) =~= before.update(i as int, (k, role)));
                assert forall|w: Seq<char>| #[trigger] first_entry(keyword_view(table@), w) == (if w == k {
                    Some(role)
                } else {
                    first_entry(before, w)
                }) by {
                    assert(first_entry(before.update(i as int, (k, role)), w) == (if w == k { Some(role) } else { first_entry(before, w) }));
                }
            }
            return;
        }
        i = i + 1;
    }
    let ghost k = key@;
    table.push((key, role));
    proof {
        lemma_first_entry_push(before, (k, role));
        assert(keyword_view(table@) =~= before.push((k, role)));
    }
}

/// Appends `rule` to the rules filed under `key`.
fn insert_pattern(table: &mut Vec<(String, Vec<PatternRule>)>, key: &String, rule: PatternRule)
    ensures
        forall|w: Seq<char>| #[trigger] first_entry(pattern_index_view(final(table)@), w) == (if w == key@ {
            Some(with_rule(first_entry(pattern_index_view(old(table)@), w), rule.view_of()))
        } else {
            first_entry(pattern_index_view(old(table)@), w)
        }),
{
    let ghost before = pattern_index_view(table@);
    let ghost p = rule.view_of();
    let mut i: usize = 0;
    while i < table.len()
        invariant
            i <= table.len(),
            before == pattern_index_view(table@),
            before == pattern_index_view(old(table)@),
            p == rule.view_of(),
            forall|m: int| 0 <= m < i ==> before[m].0 != key@,
        decreases table.len() - i,
    {
        if table[i].0 == *key {
            let (k, mut list) = table.remove(i);
            let ghost old_list = list@;
            proof {
                assert(before[i as int].1 == old_list.map_values(|q: PatternRule| q.view_of()));
            }
            list.push(rule);
            let ghost entry = (k@, list@.map_values(|q: PatternRule| q.view_of()));
            table.insert(i, (k, list));
            proof {
                assert(list@ == old_list.push(rule));
                assert forall|j: int| 0 <= j < entry.1.len() implies entry.1[j] == before[i as int].1.push(p)[j] by {
                    if j < old_list.len() {
                        assert(entry.1[j] == old_list[j].view_of());
                    }
                }
                assert(entry.1 =~= before[i as int].1.push(p));
                lemma_first_entry_update(before, i as int, entry);
                assert(pattern_index_view(table@) =~= before.update(i as int, entry));
                assert(first_entry(before, key@) == Some(before[i as int].1)) by {
                    lemma_first_entry_update(before, i as int, (key@, before[i as int].1));
                    assert(before.update(i as int, (key@, before[i as int].1)) =~= before);
                }
                assert forall|w: Seq<char>| #[trigger] first_entry(pattern_index_view(table@), w) == (if w == key@ {
                    Some(with_rule(first_entry(before, w), p))
                } else {
                    first_entry(before, w)
                }) by {
                    assert(first_entry(before.update(i as int, entry), w) == (if w == entry.0 { Some(entry.1) } else { first_entry(before, w) }));
                }
            }
            return;
        }
        i = i + 1;
    }
    let mut list: Vec<PatternRule> = Vec::new();
    list.push(rule);
    let ghost entry = (key@, list@.map_values(|q: PatternRule| q.view_of()));
    table.push((key.clone(), list));
    proof {
        assert(entry.1 =~= Seq::empty().push(p));
        lemma_first_entry_push(before, entry);
        assert(pattern_index_view(table@) =~= before.push(entry));
        lemma_first_entry_some(before, key@);
    }
}

/// Files each keyword, in upper case, under `role`.
fn add_sub_keywords(
    table: &mut Vec<(String, TransactionRole)>,
    keywords: &Vec<String>,
    role: TransactionRole,
    Ghost(base): Ghost<Seq<(Seq<char>, TransactionRole)>>,
)
    requires
        forall|w: Seq<char>| #[trigger] first_entry(keyword_view(old(table)@), w) == last_role(base, w),
    ensures
        forall|w: Seq<char>| #[trigger] first_entry(keyword_view(final(table)@), w)
            == last_role(base + sub_keyword_entries(texts_view(keywords@), role), w),
        keys_upper_stable(keyword_view(old(table)@)) && ascii_texts(texts_view(keywords@)) ==> keys_upper_stable(
            keyword_view(final(table)@),
        ),
{
    let ghost kws = texts_view(keywords@);
    let ghost stable = keys_upper_stable(keyword_view(table@)) && ascii_texts(kws);
    let mut k: usize = 0;
    while k < keywords.len()
        invariant
            k <= keywords.len(),
            kws == texts_view(keywords@),
            forall|w: Seq<char>| #[trigger] first_entry(keyword_view(table@), w)
                == last_role(base + sub_keyword_entries(kws.take(k as int), role), w),
            stable == (keys_upper_stable(keyword_view(old(table)@)) && ascii_texts(kws)),
            stable ==> keys_upper_stable(keyword_view(table@)),
        decreases keywords.len() - k,
    {
        let up = to_uppercase(keywords[k].as_str());
        proof {
            if stable {
                assert(all_ascii(kws[k as int]));
                assert(kws[k as int] == keywords@[k as int]@);
                lemma_ascii_upper_stable(kws[k as int]);
            }
        }
        let ghost cur = base + sub_keyword_entries(kws.take(k as int), role);
        let ghost e = (up@, role);
        insert_keyword(table, up, role);
        proof {
            assert(kws[k as int] == keywords@[k as int]@);
            assert(base + sub_keyword_entries(kws.take(k + 1), role) =~= cur.push(e));
            lemma_last_role_push(cur, e);
        }
        k = k + 1;
    }
    proof {
        assert(kws.take(keywords.len() as int) =~= kws);
    }
}

/// The distinct words of a pattern in upper case, in order of first occurrence.
fn upper_distinct(words: &Vec<String>) -> (r: Vec<String>)
    ensures
        texts_view(r@) == dedupe(upper_words(texts_view(words@))),
{
    let ghost ups = upper_words(texts_view(words@));
    let mut out: Vec<String> = Vec::new();
    let mut i: usize = 0;
    while i < words.len()
        invariant
            i <= words.len(),
            ups == upper_words(texts_view(words@)),
            texts_view(out@) == dedupe(ups.take(i as int)),
        decreases words.len() - i,
    {
        let up = to_uppercase(words[i].as_str());
        proof {
            assert(ups.take(i + 1).drop_last() =~= ups.take(i as int));
            assert(ups.take(i + 1).last() == up@);
            assert(texts_view(out@) =~= out@.map_values(|x: String| x@));
        }
        TransactionCategorizer::push_unique(&mut out, up);
        proof {
            assert(texts_view(out@) =~= out@.map_values(|x: String| x@));
        }
        i = i + 1;
    }
    proof {
        assert(ups.take(words.len() as int) =~= ups);
    }
    out
}

/// Files `rule` under each of its (distinct) words.
fn add_pattern(table: &mut Vec<(String, Vec<PatternRule>)>, rule: &PatternRule)
    requires
        texts_view(rule.required_words@).no_duplicates(),
    ensures
        forall|w: Seq<char>| #[trigger] first_entry(pattern_index_view(final(table)@), w) == (if rule.view_of().words.contains(w) {
            Some(with_rule(first_entry(pattern_index_view(old(table)@), w), rule.view_of()))
        } else {
            first_entry(pattern_index_view(old(table)@), w)
        }),
{
    let ghost before = pattern_index_view(table@);
    let ghost p = rule.view_of();
    let ghost ws = texts_view(rule.required_words@);
    let mut m: usize = 0;
    while m < rule.required_words.len()
        invariant
            m <= rule.required_words.len(),
            before == pattern_index_view(old(table)@),
            p == rule.view_of(),
            ws == texts_view(rule.required_words@),
            ws == p.words,
            ws.no_duplicates(),
            forall|w: Seq<char>| #[trigger] first_entry(pattern_index_view(table@), w) == (if ws.take(m as int).contains(w) {
                Some(with_rule(first_entry(before, w), p))
            } else {
                first_entry(before, w)
            }),
        decreases rule.required_words.len() - m,
    {
        let ghost x = rule.required_words@[m as int]@;
        let ghost cur = pattern_index_view(table@);
        insert_pattern(table, &rule.required_words[m], rule.duplicate());
        proof {
            assert(ws[m as int] == x);
            let t0 = ws.take(m as int);
            let t1 = ws.take(m + 1);
            assert forall|w: Seq<char>| t1.contains(w) <==> (t0.contains(w) || w == x) by {
                if t1.contains(w) {
                    let j = choose|j: int| 0 <= j < t1.len() && t1[j] == w;
                    if j < m {
                        assert(t0[j] == w);
                    }
                }
                if t0.contains(w) {
                    let j = choose|j: int| 0 <= j < t0.len() && t0[j] == w;
                    assert(t1[j] == w);
                }
                if w == x {
                    assert(t1[m as int] == w);
                }
            }
            assert(!t0.contains(x)) by {
                if t0.contains(x) {
                    let j = choose|j: int| 0 <= j < t0.len() && t0[j] == x;
                    assert(ws[j] == ws[m as int]);
                }
            }
            assert(first_entry(cur, x) == first_entry(before, x));
        }
        m = m + 1;
    }
    proof {
        assert(ws.take(rule.required_words.len() as int) =~= ws);
    }
}

proof fn lemma_dedupe_empty(s: Seq<Seq<char>>)
    ensures
        dedupe(s).len() == 0 <==> s.len() == 0,
{
    lemma_dedupe_distinct(s);
    if s.len() > 0 {
        assert(s.contains(s[0]));
        assert(dedupe(s).contains(s[0]));
    }
}

/// Files every non-empty pattern of a rule under each of its words, with `role`.
fn add_sub_patterns(
    table: &mut Vec<(String, Vec<PatternRule>)>,
    patterns: &Vec<Vec<String>>,
    role: TransactionRole,
    Ghost(base): Ghost<Seq<PatternView>>,
)
    requires
        forall|w: Seq<char>| #[trigger] first_entry(pattern_index_view(old(table)@), w) == pattern_lookup(base, w),
    ensures
        forall|w: Seq<char>| #[trigger] first_entry(pattern_index_view(final(table)@), w)
            == pattern_lookup(base + sub_pattern_entries(patterns@.map_values(|p: Vec<String>| texts_view(p@)), role), w),
{
    let ghost pv = patterns@.map_values(|p: Vec<String>| texts_view(p@));
    let mut q: usize = 0;
    while q < patterns.len()
        invariant
            q <= patterns.len(),
            pv == patterns@.map_values(|p: Vec<String>| texts_view(p@)),
            forall|w: Seq<char>| #[trigger] first_entry(pattern_index_view(table@), w)
                == pattern_lookup(base + sub_pattern_entries(pv.take(q as int), role), w),
        decreases patterns.len() - q,
    {
        let ghost cur = base + sub_pattern_entries(pv.take(q as int), role);
        proof {
            assert(pv.take(q + 1).drop_last() =~= pv.take(q as int));
            assert(pv.take(q + 1).last() == pv[q as int]);
            assert(pv[q as int] == texts_view(patterns@[q as int]@));
        }
        let words = upper_distinct(&patterns[q]);
        proof {
            lemma_dedupe_empty(upper_words(texts_view(patterns@[q as int]@)));
            lemma_dedupe_distinct(upper_words(texts_view(patterns@[q as int]@)));
        }
        if words.len() == 0 {
            proof {
                assert(base + sub_pattern_entries(pv.take(q + 1), role) =~= cur);
            }
        } else {
            let rule = PatternRule { required_words: words, role, confidence: 100 };
            let ghost p = rule.view_of();
            proof {
                assert(p == pattern_view_of(pv[q as int], role));
            }
            add_pattern(table, &rule);
            proof {
                assert(base + sub_pattern_entries(pv.take(q + 1), role) =~= cur.push(p));
                lemma_patterns_with_push(cur, p);
            }
        }
        q = q + 1;
    }
    proof {
        assert(pv.take(patterns.len() as int) =~= pv);
    }
}

/// Files the keywords and patterns of every sub-category of a category whose role is known.
fn add_category(
    keywords: &mut Vec<(String, TransactionRole)>,
    patterns: &mut Vec<(String, Vec<PatternRule>)>,
    category: &String,
    subs: &Vec<(String, CategoryRule)>,
    Ghost(kbase): Ghost<Seq<(Seq<char>, TransactionRole)>>,
    Ghost(pbase): Ghost<Seq<PatternView>>,
)
    requires
        forall|w: Seq<char>| #[trigger] first_entry(keyword_view(old(keywords)@), w) == last_role(kbase, w),
        forall|w: Seq<char>| #[trigger] first_entry(pattern_index_view(old(patterns)@), w) == pattern_lookup(pbase, w),
    ensures
        forall|w: Seq<char>| #[trigger] first_entry(keyword_view(final(keywords)@), w)
            == last_role(kbase + category_keyword_entries(category@, subs_view(subs@)), w),
        forall|w: Seq<char>| #[trigger] first_entry(pattern_index_view(final(patterns)@), w)
            == pattern_lookup(pbase + category_pattern_entries(category@, subs_view(subs@)), w),
        keys_upper_stable(keyword_view(old(keywords)@)) && ascii_rules(subs_view(subs@)) ==> keys_upper_stable(
            keyword_view(final(keywords)@),
        ),
{
    let ghost sv = subs_view(subs@);
    let ghost stable = keys_upper_stable(keyword_view(keywords@)) && ascii_rules(sv);
    let mut j: usize = 0;
    while j < subs.len()
        invariant
            j <= subs.len(),
            sv == subs_view(subs@),
            stable == (keys_upper_stable(keyword_view(old(keywords)@)) && ascii_rules(sv)),
            stable ==> keys_upper_stable(keyword_view(keywords@)),
            forall|w: Seq<char>| #[trigger] first_entry(keyword_view(keywords@), w)
                == last_role(kbase + category_keyword_entries(category@, sv.take(j as int)), w),
            forall|w: Seq<char>| #[trigger] first_entry(pattern_index_view(patterns@), w)
                == pattern_lookup(pbase + category_pattern_entries(category@, sv.take(j as int)), w),
        decreases subs.len() - j,
    {
        let ghost kcur = kbase + category_keyword_entries(category@, sv.take(j as int));
        let ghost pcur = pbase + category_pattern_entries(category@, sv.take(j as int));
        proof {
            assert(sv.take(j + 1).drop_last() =~= sv.take(j as int));
            assert(sv.take(j + 1).last() == sv[j as int]);
            assert(sv[j as int] == (subs@[j as int].0@, subs@[j as int].1.view_of()));
        }
        let role = role_for(category, &subs[j].0, subs[j].1.role);
        proof {
            if stable {
                assert(ascii_texts(sv[j as int].1.keywords));
            }
        }
        if role != TransactionRole::Unknown {
            add_sub_keywords(keywords, &subs[j].1.keywords, role, Ghost(kcur));
            add_sub_patterns(patterns, &subs[j].1.patterns, role, Ghost(pcur));
            proof {
                assert(kbase + category_keyword_entries(category@, sv.take(j + 1))
                    =~= kcur + sub_keyword_entries(texts_view(subs@[j as int].1.keywords@), role));
                assert(pbase + category_pattern_entries(category@, sv.take(j + 1))
                    =~= pcur + sub_pattern_entries(subs@[j as int].1.patterns@.map_values(|p: Vec<String>| texts_view(p@)), role));
            }
        } else {
            proof {
                assert(kbase + category_keyword_entries(category@, sv.take(j + 1)) =~= kcur);
                assert(pbase + category_pattern_entries(category@, sv.take(j + 1)) =~= pcur);
            }
        }
        j = j + 1;
    }
    proof {
        assert(sv.take(subs.len() as int) =~= sv);
    }
}

/// Adds `key` to a strictly ascending list of texts unless it is there already.
fn insert_sorted(dict: &mut Vec<String>, key: String)
    requires
        strictly_ascending(texts_view(old(dict)@)),
    ensures
        strictly_ascending(texts_view(final(dict)@)),
        forall|w: Seq<char>| #[trigger] texts_view(final(dict)@).contains(w) <==> (texts_view(old(dict)@).contains(w) || w == key@),
{
    let ghost d = texts_view(dict@);
    let mut p: usize = 0;
    while p < dict.len() && text_lt(&dict[p], &key)
        invariant
            p <= dict.len(),
            d == texts_view(dict@),
            forall|m: int| 0 <= m < p ==> text_before(#[trigger] d[m], key@),
        decreases dict.len() - p,
    {
        p = p + 1;
    }
    if p < dict.len() && dict[p] == key {
        proof {
            assert(d[p as int] == key@);
        }
        return;
    }
    proof {
        if p < d.len() {
            assert(!text_before(d[p as int], key@));
            lemma_text_before_total(d[p as int], key@);
        }
    }
    let ghost k = key@;
    dict.insert(p, key);
    proof {
        let n = texts_view(dict@);
        assert(n =~= d.insert(p as int, k));
        assert forall|i: int, j: int| 0 <= i < j < n.len() implies text_before(#[trigger] n[i], #[trigger] n[j]) by {
            if j < p {
            } else if j == p {
            } else if i < p {
                if j - 1 > p {
                    lemma_text_before_transitive(k, d[p as int], d[j - 1]);
                }
                lemma_text_before_transitive(n[i], k, n[j]);
            } else if i == p {
                if j - 1 > p {
                    lemma_text_before_transitive(k, d[p as int], d[j - 1]);
                }
            } else {
            }
        }
        assert forall|w: Seq<char>| #[trigger] n.contains(w) <==> (d.contains(w) || w == k) by {
            if n.contains(w) {
                let i = choose|i: int| 0 <= i < n.len() && n[i] == w;
                if i < p {
                    assert(d[i] == w);
                } else if i > p {
                    assert(d[i - 1] == w);
                }
            }
            if d.contains(w) {
                let i = choose|i: int| 0 <= i < d.len() && d[i] == w;
                if i < p {
                    assert(n[i] == w);
                } else {
                    assert(n[i + 1] == w);
                }
            }
            if w == k {
                assert(n[p as int] == w);
            }
        }
    }
}

/// The keys of a keyword table, strictly ascending.
fn sorted_keys(table: &Vec<(String, TransactionRole)>) -> (r: Vec<String>)
    ensures
        strictly_ascending(texts_view(r@)),
        forall|w: Seq<char>| #[trigger] texts_view(r@).contains(w) <==> first_entry(keyword_view(table@), w) is Some,
{
    let ghost t = keyword_view(table@);
    let mut dict: Vec<String> = Vec::new();
    let mut i: usize = 0;
    while i < table.len()
        invariant
            i <= table.len(),
            t == keyword_view(table@),
            strictly_ascending(texts_view(dict@)),
            forall|w: Seq<char>| #[trigger] texts_view(dict@).contains(w) <==> exists|m: int| 0 <= m < i && t[m].0 == w,
        decreases table.len() - i,
    {
        let ghost k = table@[i as int].0@;
        insert_sorted(&mut dict, table[i].0.clone());
        proof {
            assert(t[i as int].0 == k);
            assert forall|w: Seq<char>| #[trigger] texts_view(dict@).contains(w) <==> exists|m: int| 0 <= m < i + 1 && t[m].0 == w by {
                if exists|m: int| 0 <= m < i + 1 && t[m].0 == w {
                    let m = choose|m: int| 0 <= m < i + 1 && t[m].0 == w;
                    if m < i {
                        assert(exists|m: int| 0 <= m < i && t[m].0 == w);
                    }
                }
            }
        }
        i = i + 1;
    }
    proof {
        assert forall|w: Seq<char>| #[trigger] texts_view(dict@).contains(w) <==> first_entry(t, w) is Some by {
            lemma_first_entry_some(t, w);
        }
    }
    dict
}

/// `p` is what the categoriser makes of `raw` for a payer of kind `user_type`.
pub open spec fn analyzed_row(cat: TransactionCategorizer, raw: RawStatement, user_type: TaxEntity, p: ParsedTransaction) -> bool {
    &&& p.amount == raw.amount
    &&& p.narration == raw.narration
    &&& p.date == raw.date
    &&& p.charges@ == charge_of(raw.narration@)
    &&& (p.role, p.confidence) == analysis_of(cat, raw.narration@, raw.amount@, user_type)
}

/// rayon's `into_par_iter().map(..).collect()` over the statements, each analysed by
/// `analyze_raw_statment` (whose verified contract gives `analyzed_row`); an indexed
/// parallel iterator collects into a `Vec` in input order, as rayon documents.
#[verifier::external_body]
fn analyze_in_parallel(cat: &TransactionCategorizer, statements: Vec<RawStatement>, user_type: TaxEntity) -> (r: Vec<ParsedTransaction>)
    ensures
        r@.len() == statements@.len(),
        forall|i: int| 0 <= i < r@.len() ==> analyzed_row(*cat, statements@[i], user_type, #[trigger] r@[i]),
{
    statements.into_par_iter().map(|raw| cat.analyze_raw_statment(raw, user_type)).collect()
}

/// Refining by the kind of payer and the direction of the money never makes a known
/// role unknown, nor an unknown role known.
pub proof fn lemma_refine_keeps_unknown(entity: TaxEntity, role: TransactionRole, amount: DecimalView)
    ensures
        (refine_spec(entity, role, amount) == TransactionRole::Unknown) == (role == TransactionRole::Unknown),
{
}

/// No entry files a word as unknown.
pub open spec fn entries_known(e: Seq<(Seq<char>, TransactionRole)>) -> bool {
    forall|k: int| 0 <= k < e.len() ==> (#[trigger] e[k]).1 != TransactionRole::Unknown
}

/// Every rule decides a known role with confidence 100.
pub open spec fn rules_decisive(ps: Seq<PatternView>) -> bool {
    forall|k: int| 0 <= k < ps.len() ==> (#[trigger] ps[k]).role != TransactionRole::Unknown && ps[k].confidence == 100
}

pub open spec fn decisive_entry(o: Option<Seq<PatternView>>) -> bool {
    match o {
        Some(l) => rules_decisive(l),
        None => true,
    }
}

proof fn lemma_entries_known_concat(a: Seq<(Seq<char>, TransactionRole)>, b: Seq<(Seq<char>, TransactionRole)>)
    requires
        entries_known(a),
        entries_known(b),
    ensures
        entries_known(a + b),
{
    assert forall|k: int| 0 <= k < (a + b).len() implies (#[trigger] (a + b)[k]).1 != TransactionRole::Unknown by {
        if k < a.len() {
            assert((a + b)[k] == a[k]);
        } else {
            assert((a + b)[k] == b[k - a.len()]);
        }
    }
}

proof fn lemma_rules_decisive_concat(a: Seq<PatternView>, b: Seq<PatternView>)
    requires
        rules_decisive(a),
        rules_decisive(b),
    ensures
        rules_decisive(a + b),
{
    assert forall|k: int| 0 <= k < (a + b).len() implies (#[trigger] (a + b)[k]).role != TransactionRole::Unknown
        && (a + b)[k].confidence == 100 by {
        if k < a.len() {
            assert((a + b)[k] == a[k]);
        } else {
            assert((a + b)[k] == b[k - a.len()]);
        }
    }
}

proof fn lemma_category_entries(category: Seq<char>, subs: Seq<(Seq<char>, RuleView)>)
    ensures
        entries_known(category_keyword_entries(category, subs)),
        rules_decisive(category_pattern_entries(category, subs)),
    decreases subs.len(),
{
    if subs.len() > 0 {
        lemma_category_entries(category, subs.drop_last());
        let role = rule_role(category, subs.last().0, subs.last().1.role);
        if role != TransactionRole::Unknown {
            lemma_entries_known_concat(
                category_keyword_entries(category, subs.drop_last()),
                sub_keyword_entries(subs.last().1.keywords, role),
            );
            lemma_sub_patterns_decisive(subs.last().1.patterns, role);
            lemma_rules_decisive_concat(
                category_pattern_entries(category, subs.drop_last()),
                sub_pattern_entries(subs.last().1.patterns, role),
            );
        }
    }
}

proof fn lemma_sub_patterns_decisive(patterns: Seq<Seq<Seq<char>>>, role: TransactionRole)
    requires
        role != TransactionRole::Unknown,
    ensures
        rules_decisive(sub_pattern_entries(patterns, role)),
    decreases patterns.len(),
{
    if patterns.len() > 0 {
        lemma_sub_patterns_decisive(patterns.drop_last(), role);
        let prev = sub_pattern_entries(patterns.drop_last(), role);
        let cur = sub_pattern_entries(patterns, role);
        assert forall|k: int| 0 <= k < cur.len() implies (#[trigger] cur[k]).role != TransactionRole::Unknown
            && cur[k].confidence == 100 by {
            if k < prev.len() {
                assert(cur[k] == prev[k]);
            }
        }
    }
}

proof fn lemma_lexicon_entries(cats: Seq<(Seq<char>, Seq<(Seq<char>, RuleView)>)>)
    ensures
        entries_known(keyword_entries(cats)),
        rules_decisive(pattern_entries(cats)),
    decreases cats.len(),
{
    if cats.len() > 0 {
        lemma_lexicon_entries(cats.drop_last());
        lemma_category_entries(cats.last().0, cats.last().1);
        lemma_entries_known_concat(keyword_entries(cats.drop_last()), category_keyword_entries(cats.last().0, cats.last().1));
        lemma_rules_decisive_concat(pattern_entries(cats.drop_last()), category_pattern_entries(cats.last().0, cats.last().1));
    }
}

proof fn lemma_last_role_known(e: Seq<(Seq<char>, TransactionRole)>, w: Seq<char>)
    requires
        entries_known(e),
    ensures
        last_role(e, w) != Some(TransactionRole::Unknown),
    decreases e.len(),
{
    if e.len() > 0 {
        assert(e.last() == e[e.len() - 1]);
        let d = e.drop_last();
        assert forall|k: int| 0 <= k < d.len() implies (#[trigger] d[k]).1 != TransactionRole::Unknown by {
            assert(d[k] == e[k]);
        }
        lemma_last_role_known(d, w);
    }
}

proof fn lemma_patterns_with_decisive(ps: Seq<PatternView>, w: Seq<char>)
    requires
        rules_decisive(ps),
    ensures
        rules_decisive(patterns_with(ps, w)),
    decreases ps.len(),
{
    if ps.len() > 0 {
        let d = ps.drop_last();
        assert forall|k: int| 0 <= k < d.len() implies (#[trigger] d[k]).role != TransactionRole::Unknown
            && d[k].confidence == 100 by {
            assert(d[k] == ps[k]);
        }
        lemma_patterns_with_decisive(d, w);
        let prev = patterns_with(d, w);
        let cur = patterns_with(ps, w);
        assert(ps.last() == ps[ps.len() - 1]);
        assert forall|k: int| 0 <= k < cur.len() implies (#[trigger] cur[k]).role != TransactionRole::Unknown
            && cur[k].confidence == 100 by {
            if k < prev.len() {
                assert(cur[k] == prev[k]);
            }
        }
    }
}

proof fn lemma_first_applicable_in(list: Seq<PatternView>, words: Seq<Seq<char>>, j: int)
    requires
        rules_decisive(list),
    ensures
        first_applicable(list, words, j) matches Some(p) ==> p.role != TransactionRole::Unknown && p.confidence == 100,
    decreases list.len() - j,
{
    if 0 <= j < list.len() {
        assert(list[j].role != TransactionRole::Unknown);
        lemma_first_applicable_in(list, words, j + 1);
    }
}

proof fn lemma_pattern_match_decisive(table: Seq<(Seq<char>, Seq<PatternView>)>, words: Seq<Seq<char>>, i: int)
    requires
        forall|w: Seq<char>| decisive_entry(#[trigger] lookup_patterns(table, w)),
    ensures
        pattern_match_from(table, words, i) matches Some(p) ==> p.role != TransactionRole::Unknown && p.confidence == 100,
    decreases words.len() - i,
{
    if 0 <= i < words.len() {
        lemma_pattern_match_decisive(table, words, i + 1);
        match lookup_patterns(table, words[i]) {
            Some(list) => {
                lemma_first_applicable_in(list, words, 0);
            },
            None => {},
        }
    }
}

/// With keyword and pattern tables that never decide "unknown" and rate every pattern
/// 100, a decided role has confidence 100 and an undecided one 0.
proof fn lemma_rules_verdict_confidence(
    keywords: Seq<(Seq<char>, TransactionRole)>,
    patterns: Seq<(Seq<char>, Seq<PatternView>)>,
    words: Seq<Seq<char>>,
)
    requires
        forall|w: Seq<char>| #[trigger] lookup_keyword(keywords, w) != Some(TransactionRole::Unknown),
        forall|w: Seq<char>| decisive_entry(#[trigger] lookup_patterns(patterns, w)),
    ensures
        rules_verdict(keywords, patterns, words).1 == (if rules_verdict(keywords, patterns, words).0 == TransactionRole::Unknown {
            0u32
        } else {
            100u32
        }),
{
    lemma_pattern_match_decisive(patterns, words, 0);
    if pattern_match_from(patterns, words, 0) is None {
        if exists|i: int| 0 <= i < words.len() && lookup_keyword(keywords, words[i]) is Some {
            let i = choose|i: int| 0 <= i < words.len() && lookup_keyword(keywords, words[i]) is Some;
            assert(lookup_keyword(keywords, words[i]) != Some(TransactionRole::Unknown));
        }
    }
}

/// A categoriser built from a lexicon rates every role it decides 100 and every
/// transaction it cannot place (role unknown) 0, whatever the payer and the direction of
/// the money.
pub proof fn lemma_lexicon_confidence(
    lexicon: LexiconFile,
    cat: TransactionCategorizer,
    narration: Seq<char>,
    amount: DecimalView,
    entity: TaxEntity,
)
    requires
        forall|w: Seq<char>| #[trigger] lookup_keyword(cat.keyword_table(), w) == last_role(keyword_entries(lexicon.view_of()), w),
        forall|w: Seq<char>| #[trigger] lookup_patterns(cat.pattern_table(), w) == pattern_lookup(pattern_entries(lexicon.view_of()), w),
    ensures
        analysis_of(cat, narration, amount, entity).1 == (if analysis_of(cat, narration, amount, entity).0
            == TransactionRole::Unknown {
            0u32
        } else {
            100u32
        }),
{
    let lex = lexicon.view_of();
    lemma_lexicon_entries(lex);
    assert forall|w: Seq<char>| #[trigger] lookup_keyword(cat.keyword_table(), w) != Some(TransactionRole::Unknown) by {
        lemma_last_role_known(keyword_entries(lex), w);
    }
    assert forall|w: Seq<char>| decisive_entry(#[trigger] lookup_patterns(cat.pattern_table(), w)) by {
        lemma_patterns_with_decisive(pattern_entries(lex), w);
    }
    let words = corrected_words(cat.keyword_table(), cat.dictionary(), narration_words(narration));
    lemma_rules_verdict_confidence(cat.keyword_table(), cat.pattern_table(), words);
    let base = rules_verdict(cat.keyword_table(), cat.pattern_table(), words).0;
    lemma_refine_keeps_unknown(entity, base, amount);
}

impl TransactionCategorizer {
    pub closed spec fn keyword_table(self) -> Seq<(Seq<char>, TransactionRole)> {
        keyword_view(self.keywords_container@)
    }

    pub closed spec fn pattern_table(self) -> Seq<(Seq<char>, Seq<PatternView>)> {
        pattern_index_view(self.pattern_container@)
    }

    pub closed spec fn dictionary(self) -> Seq<Seq<char>> {
        texts_view(self.dictionary_words@)
    }

    /// Builds the categoriser from a lexicon. Every keyword is filed in upper case under
    /// its rule's role (a later keyword replacing an earlier one, as in a map); every
    /// non-empty pattern becomes a rule of its distinct upper-case words with confidence
    /// 100, filed under each of its words; rules whose role is unknown are skipped. The
    /// dictionary for spelling correction is the keywords in ascending order.
    pub fn from_lexicon(lexicon: LexiconFile) -> (r: Self)
        ensures
            forall|w: Seq<char>| #[trigger] lookup_keyword(r.keyword_table(), w) == last_role(keyword_entries(lexicon.view_of()), w),
            forall|w: Seq<char>| #[trigger] lookup_patterns(r.pattern_table(), w) == pattern_lookup(pattern_entries(lexicon.view_of()), w),
            strictly_ascending(r.dictionary()),
            forall|w: Seq<char>| #[trigger] r.dictionary().contains(w) <==> last_role(keyword_entries(lexicon.view_of()), w) is Some,
            ascii_lexicon(lexicon.view_of()) ==> keys_upper_stable(r.keyword_table()),
    {
        let ghost lex = lexicon.view_of();
        let mut keywords: Vec<(String, TransactionRole)> = Vec::new();
        let mut patterns: Vec<(String, Vec<PatternRule>)> = Vec::new();
        let mut i: usize = 0;
        proof {
            assert(lex.take(0) =~= Seq::<(Seq<char>, Seq<(Seq<char>, RuleView)>)>::empty());
        }
        while i < lexicon.categories.len()
            invariant
                i <= lexicon.categories.len(),
                lex == lexicon.view_of(),
                forall|w: Seq<char>| #[trigger] first_entry(keyword_view(keywords@), w) == last_role(keyword_entries(lex.take(i as int)), w),
                forall|w: Seq<char>| #[trigger] first_entry(pattern_index_view(patterns@), w)
                    == pattern_lookup(pattern_entries(lex.take(i as int)), w),
                ascii_lexicon(lex) ==> keys_upper_stable(keyword_view(keywords@)),
            decreases lexicon.categories.len() - i,
        {
            proof {
                if ascii_lexicon(lex) {
                    assert(ascii_rules(lex[i as int].1));
                    assert(lex[i as int].1 == subs_view(lexicon.categories@[i as int].1@));
                }
            }
            proof {
                assert(lex.take(i + 1).drop_last() =~= lex.take(i as int));
                assert(lex.take(i + 1).last() == lex[i as int]);
            }
            add_category(
                &mut keywords,
                &mut patterns,
                &lexicon.categories[i].0,
                &lexicon.categories[i].1,
                Ghost(keyword_entries(lex.take(i as int))),
                Ghost(pattern_entries(lex.take(i as int))),
            );
            i = i + 1;
        }
        proof {
            assert(lex.take(lexicon.categories.len() as int) =~= lex);
        }
        let dictionary_words = sorted_keys(&keywords);
        TransactionCategorizer { keywords_container: keywords, pattern_container: patterns, dictionary_words }
    }

    fn refine_for_pit(&self, role: TransactionRole, amount: Amount) -> (r: TransactionRole)
        ensures
            r == refine_for_pit_spec(role, amount@),
    {
        match role {
            TransactionRole::Salary if amount.is_sign_negative() => TransactionRole::PersonalExp,
            TransactionRole::Rent if amount.is_sign_negative() => TransactionRole::Rent,
            TransactionRole::Rent if amount.is_sign_positive() => TransactionRole::Income,
            TransactionRole::Income if amount.is_sign_negative() => TransactionRole::PersonalExp,
            TransactionRole::Utilities if amount.is_sign_positive() => TransactionRole::TaxExempt,
            TransactionRole::BusinessExp if amount.is_sign_positive() => TransactionRole::TaxExempt,
            TransactionRole::PersonalExp if amount.is_sign_positive() => TransactionRole::Income,
            _ => role,
        }
    }

    fn refine_for_llc(&self, role: TransactionRole, amount: Amount) -> (r: TransactionRole)
        ensures
            r == refine_for_llc_spec(role, amount@),
    {
        match role {
            TransactionRole::Salary if amount.is_sign_negative() => TransactionRole::BusinessExp,
            TransactionRole::Rent if amount.is_sign_negative() => TransactionRole::BusinessExp,
            TransactionRole::Rent if amount.is_sign_positive() => TransactionRole::Income,
            TransactionRole::Utilities if amount.is_sign_positive() => TransactionRole::TaxExempt,
            TransactionRole::BusinessExp if amount.is_sign_positive() => TransactionRole::Income,
            TransactionRole::PersonalExp if amount.is_sign_positive() => TransactionRole::Income,
            _ => role,
        }
    }


    /// The single role the keywords among `words` agree on, if any.
    fn analyze_keywords(&self, words: &Vec<String>) -> (r: Option<TransactionRole>)
        ensures
            r == keyword_verdict(self.keyword_table(), words@.map_values(|w: String| w@)),
    {
        let ghost ws = words@.map_values(|w: String| w@);
        let ghost table = self.keyword_table();
        let mut found: Option<TransactionRole> = None;
        let mut conflict = false;
        let mut i: usize = 0;
        while i < words.len()
            invariant
                i <= words.len(),
                ws == words@.map_values(|w: String| w@),
                table == self.keyword_table(),
                found is None <==> (forall|j: int| 0 <= j < i ==> lookup_keyword(table, ws[j]) is None),
                found matches Some(f) ==> (exists|j: int| 0 <= j < i && lookup_keyword(table, ws[j]) == Some(f)),
                conflict == (exists|j: int| 0 <= j < i && lookup_keyword(table, ws[j]) is Some && lookup_keyword(table, ws[j]) != found),
            decreases words.len() - i,
        {
            let role = self.keyword_role(&words[i]);
            assert(ws[i as int] == words@[i as int]@);
            match role {
                Some(r) => {
                    match found {
                        None => {
                            found = Some(r);
                        },
                        Some(f) => {
                            if f != r {
                                conflict = true;
                            }
                        },
                    }
                },
                None => {},
            }
            proof {
                if found is Some {
                    assert(exists|j: int| 0 <= j < i + 1 && lookup_keyword(table, ws[j]) == found);
                }
                if conflict {
                    assert(exists|j: int| 0 <= j < i + 1 && lookup_keyword(table, ws[j]) is Some && lookup_keyword(table, ws[j]) != found);
                }
            }
            i = i + 1;
        }
        if conflict {
            proof {
                let k = choose|j: int| 0 <= j < words.len() && lookup_keyword(table, ws[j]) is Some && lookup_keyword(table, ws[j]) != found;
                let c = choose|i: int| 0 <= i < ws.len() && lookup_keyword(table, ws[i]) is Some;
                let f = found->0;
                let fj = choose|j: int| 0 <= j < i && lookup_keyword(table, ws[j]) == Some(f);
                assert(lookup_keyword(table, ws[fj]) == Some(f));
            }
            None
        } else {
            proof {
                if found is Some {
                    let c = choose|i: int| 0 <= i < ws.len() && lookup_keyword(table, ws[i]) is Some;
                    assert(lookup_keyword(table, ws[c]) == found);
                }
            }
            found
        }
    }


    fn patterns_for(&self, word: &String) -> (r: Option<usize>)
        ensures
            r matches Some(k) ==> k < self.pattern_container.len() && lookup_patterns(self.pattern_table(), word@)
                == Some(self.pattern_table()[k as int].1),
            r is None ==> lookup_patterns(self.pattern_table(), word@) is None,
    {
        let ghost table = self.pattern_table();
        let mut i: usize = 0;
        proof {
            assert(table.subrange(0, table.len() as int) =~= table);
        }
        while i < self.pattern_container.len()
            invariant
                i <= self.pattern_container.len(),
                table == self.pattern_table(),
                table.len() == self.pattern_container.len(),
                lookup_patterns(table, word@) == lookup_patterns(table.subrange(i as int, table.len() as int), word@),
            decreases self.pattern_container.len() - i,
        {
            let ghost rest = table.subrange(i as int, table.len() as int);
            if self.pattern_container[i].0 == *word {
                return Some(i);
            }
            proof {
                assert(rest.drop_first() =~= table.subrange(i + 1, table.len() as int));
            }
            i = i + 1;
        }
        None
    }

    /// Every required word of the rule occurs among `words`.
    fn rule_applies(rule: &PatternRule, words: &Vec<String>) -> (r: bool)
        ensures
            r == pattern_applies(rule.view_of(), words@.map_values(|w: String| w@)),
    {
        let ghost ws = words@.map_values(|w: String| w@);
        let ghost pw = rule.view_of().words;
        let mut k: usize = 0;
        while k < rule.required_words.len()
            invariant
                k <= rule.required_words.len(),
                ws == words@.map_values(|w: String| w@),
                pw == rule.view_of().words,
                forall|m: int| 0 <= m < k ==> ws.contains(#[trigger] pw[m]),
            decreases rule.required_words.len() - k,
        {
            let mut found = false;
            let mut j: usize = 0;
            while j < words.len()
                invariant
                    j <= words.len(),
                    k < rule.required_words.len(),
                    ws == words@.map_values(|w: String| w@),
                    pw == rule.view_of().words,
                    found == (exists|m: int| 0 <= m < j && ws[m] == pw[k as int]),
                decreases words.len() - j,
            {
                assert(ws[j as int] == words@[j as int]@);
                assert(pw[k as int] == rule.required_words@[k as int]@);
                if words[j] == rule.required_words[k] {
                    found = true;
                }
                j = j + 1;
            }
            if !found {
                proof {
                    assert(!ws.contains(pw[k as int]));
                }
                return false;
            }
            proof {
                let m = choose|m: int| 0 <= m < j && ws[m] == pw[k as int];
                assert(ws.contains(pw[k as int]));
            }
            k = k + 1;
        }
        true
    }

    /// The first applicable pattern filed under a word, walking the words in order.
    fn analyze_pattern(&self, words: &Vec<String>) -> (r: Option<(TransactionRole, u32)>)
        ensures
            r == (match pattern_match_from(self.pattern_table(), words@.map_values(|w: String| w@), 0) {
                Some(p) => Some((p.role, p.confidence)),
                None => None,
            }),
    {
        let ghost ws = words@.map_values(|w: String| w@);
        let ghost table = self.pattern_table();
        let mut i: usize = 0;
        while i < words.len()
            invariant
                i <= words.len(),
                ws == words@.map_values(|w: String| w@),
                table == self.pattern_table(),
                pattern_match_from(table, ws, 0) == pattern_match_from(table, ws, i as int),
            decreases words.len() - i,
        {
            assert(ws[i as int] == words@[i as int]@);
            match self.patterns_for(&words[i]) {
                Some(k) => {
                    let list = &self.pattern_container[k].1;
                    let ghost lv = table[k as int].1;
                    assert(lv == list@.map_values(|p: PatternRule| p.view_of()));
                    let mut j: usize = 0;
                    while j < list.len()
                        invariant
                            j <= list.len(),
                            i < words.len(),
                            ws == words@.map_values(|w: String| w@),
                            table == self.pattern_table(),
                            pattern_match_from(table, ws, 0) == pattern_match_from(table, ws, i as int),
                            lookup_patterns(table, ws[i as int]) == Some(lv),
                            lv == list@.map_values(|p: PatternRule| p.view_of()),
                            first_applicable(lv, ws, 0) == first_applicable(lv, ws, j as int),
                        decreases list.len() - j,
                    {
                        assert(lv[j as int] == list@[j as int].view_of());
                        if Self::rule_applies(&list[j], words) {
                            return Some((list[j].role, list[j].confidence));
                        }
                        j = j + 1;
                    }
                },
                None => {},
            }
            i = i + 1;
        }
        None
    }

    /// A pattern first, then a keyword, else unknown.
    fn layer_processor(&self, words: &Vec<String>) -> (r: (TransactionRole, u32))
        ensures
            r == rules_verdict(self.keyword_table(), self.pattern_table(), words@.map_values(|w: String| w@)),
    {
        if let Some((process, confidence)) = self.analyze_pattern(words) {
            return (process, confidence);
        }
        if let Some(process) = self.analyze_keywords(words) {
            return (process, 100);
        }
        (TransactionRole::Unknown, 0)
    }


    /// The closest dictionary word to `word`, when one is a candidate at all.
    fn closest_dictionary_word(&self, word: &String) -> (r: Option<usize>)
        ensures
            r matches Some(k) ==> k < self.dictionary_words.len() && closest_candidate(self.dictionary(), word@, self.dictionary().len() as int) == Some(self.dictionary()[k as int]),
            r is None ==> closest_candidate(self.dictionary(), word@, self.dictionary().len() as int) is None,
    {
        let ghost dict = self.dictionary();
        let word_len = word.as_str().len();
        let mut best: Option<(usize, usize)> = None;
        let mut i: usize = 0;
        while i < self.dictionary_words.len()
            invariant
                i <= self.dictionary_words.len(),
                dict == self.dictionary(),
                dict.len() == self.dictionary_words.len(),
                word_len == byte_len(word@),
                best matches Some(b) ==> b.0 < i && closest_candidate(dict, word@, i as int) == Some(dict[b.0 as int])
                    && b.1 == edit_distance(word@, dict[b.0 as int]),
                best is None ==> closest_candidate(dict, word@, i as int) is None,
            decreases self.dictionary_words.len() - i,
        {
            let candidate = &self.dictionary_words[i];
            assert(dict[i as int] == candidate@);
            let cand_len = candidate.as_str().len();
            assert(cand_len == byte_len(dict[i as int]));
            let ghost prev = closest_candidate(dict, word@, i as int);
            let gap = if cand_len >= word_len { cand_len - word_len } else { word_len - cand_len };
            if gap <= 4 {
                let d = levenshtein(word.as_str(), candidate.as_str());
                match best {
                    None => {
                        best = Some((i, d));
                    },
                    Some((_, bd)) => {
                        if d < bd {
                            best = Some((i, d));
                        }
                    },
                }
            }
            assert(closest_candidate(dict, word@, i + 1) == (if is_candidate(dict[i as int], word@) && (prev is None
                || edit_distance(word@, dict[i as int]) < edit_distance(word@, prev->0)) {
                Some(dict[i as int])
            } else {
                prev
            }));
            i = i + 1;
        }
        match best {
            Some((k, _)) => Some(k),
            None => None,
        }
    }

    /// Misspelled words replaced by the nearest keyword in the dictionary.
    fn fuzzy_checker(&self, words: &Vec<String>) -> (r: Vec<String>)
        ensures
            r@.map_values(|w: String| w@) == corrected_words(self.keyword_table(), self.dictionary(), words@.map_values(|w: String| w@)),
    {
        let ghost ws = words@.map_values(|w: String| w@);
        let ghost mapped = ws.map_values(|w: Seq<char>| corrected_word(self.keyword_table(), self.dictionary(), w));
        let mut out: Vec<String> = Vec::new();
        let mut i: usize = 0;
        while i < words.len()
            invariant
                i <= words.len(),
                ws == words@.map_values(|w: String| w@),
                mapped == ws.map_values(|w: Seq<char>| corrected_word(self.keyword_table(), self.dictionary(), w)),
                out@.map_values(|w: String| w@) == dedupe(mapped.take(i as int)),
            decreases words.len() - i,
        {
            let word = &words[i];
            assert(ws[i as int] == word@);
            let fixed: String = if self.keyword_role(word).is_some() {
                word.clone()
            } else {
                match self.closest_dictionary_word(word) {
                    Some(k) => {
                        let candidate = &self.dictionary_words[k];
                        assert(self.dictionary()[k as int] == candidate@);
                        if levenshtein(word.as_str(), candidate.as_str()) <= 2 {
                            candidate.clone()
                        } else {
                            word.clone()
                        }
                    },
                    None => word.clone(),
                }
            };
            assert(fixed@ == mapped[i as int]);
            let ghost before = out@.map_values(|w: String| w@);
            let mut present = false;
            let mut j: usize = 0;
            while j < out.len()
                invariant
                    j <= out.len(),
                    before == out@.map_values(|w: String| w@),
                    present == (exists|m: int| 0 <= m < j && before[m] == fixed@),
                decreases out.len() - j,
            {
                assert(before[j as int] == out@[j as int]@);
                if out[j] == fixed {
                    present = true;
                }
                j = j + 1;
            }
            proof {
                assert(mapped.take(i as int + 1).drop_last() =~= mapped.take(i as int));
                assert(mapped.take(i as int + 1).last() == fixed@);
                if present {
                    let m = choose|m: int| 0 <= m < j && before[m] == fixed@;
                    assert(before.contains(fixed@));
                } else {
                    assert(!before.contains(fixed@));
                }
            }
            if !present {
                out.push(fixed);
                proof {
                    assert(out@.map_values(|w: String| w@) =~= before.push(mapped[i as int]));
                }
            }
            i = i + 1;
        }
        proof {
            assert(mapped.take(words.len() as int) =~= mapped);
        }
        out
    }


    fn separator_end(s: &Vec<char>, j: usize) -> (r: usize)
        requires
            j <= s.len(),
        ensures
            r == separator_run_end(s@, j as int),
            j <= r <= s.len(),
    {
        let mut k = j;
        while k < s.len() && (s[k] == ':' || is_whitespace(s[k]))
            invariant
                j <= k <= s.len(),
                separator_run_end(s@, j as int) == separator_run_end(s@, k as int),
            decreases s.len() - k,
        {
            k = k + 1;
        }
        k
    }

    fn word_at(s: &Vec<char>, i: usize, kw: &Vec<char>) -> (r: bool)
        ensures
            r == word_at_ignoring_case(s@, i as int, kw@),
    {
        if i > s.len() || kw.len() > s.len() - i {
            return false;
        }
        let mut k: usize = 0;
        while k < kw.len()
            invariant
                i + kw.len() <= s.len(),
                k <= kw.len(),
                forall|m: int| 0 <= m < k ==> upper_char(#[trigger] s@[i + m]) == kw@[m],
            decreases kw.len() - k,
        {
            let c = s[i + k];
            let u = if 'a' <= c && c <= 'z' { ((c as u32 - 32) as u8) as char } else { c };
            if u != kw[k] {
                return false;
            }
            k = k + 1;
        }
        true
    }

    fn charge_word_end_exec(s: &Vec<char>, i: usize) -> (r: Option<usize>)
        requires
            i < s.len(),
        ensures
            r matches Some(j) ==> charge_word_end(s@, i as int, 0) == Some(j as int) && j <= s.len(),
            r is None ==> charge_word_end(s@, i as int, 0) is None,
    {
        let words: Vec<Vec<char>> = vec![
            vec!['C', 'H', 'G'],
            vec!['C', 'O', 'M', 'M'],
            vec!['V', 'A', 'T'],
            vec!['F', 'E', 'E'],
            vec!['D', 'U', 'T', 'Y'],
            vec!['L', 'E', 'V', 'Y'],
            vec!['E', 'M', 'T', 'L'],
        ];
        proof {
            assert(words@.len() == 7);
            assert forall|w: int| 0 <= w < 7 implies words@[w]@ == charge_words()[w] by {
                assert(words@[0]@ =~= charge_words()[0]);
                assert(words@[1]@ =~= charge_words()[1]);
                assert(words@[2]@ =~= charge_words()[2]);
                assert(words@[3]@ =~= charge_words()[3]);
                assert(words@[4]@ =~= charge_words()[4]);
                assert(words@[5]@ =~= charge_words()[5]);
                assert(words@[6]@ =~= charge_words()[6]);
            }
        }
        let mut w: usize = 0;
        while w < 7
            invariant
                w <= 7,
                i < s.len(),
                words@.len() == 7,
                forall|x: int| 0 <= x < 7 ==> words@[x]@ == charge_words()[x],
                charge_word_end(s@, i as int, 0) == charge_word_end(s@, i as int, w as int),
            decreases 7 - w,
        {
            if Self::word_at(s, i, &words[w]) {
                return Some(i + words[w].len());
            }
            w = w + 1;
        }
        None
    }

    /// The charge amount text of the leftmost charge, if any.
    fn charge_span(s: &Vec<char>) -> (r: Option<(usize, usize)>)
        ensures
            r matches Some((k, e)) ==> first_charge(s@, 0) == Some((k as int, e as int)) && k <= e <= s.len(),
            r is None ==> first_charge(s@, 0) is None,
    {
        let mut i: usize = 0;
        while i < s.len()
            invariant
                i <= s.len(),
                first_charge(s@, 0) == first_charge(s@, i as int),
            decreases s.len() - i,
        {
            match Self::charge_word_end_exec(s, i) {
                Some(j) => {
                    let k = Self::separator_end(s, j);
                    if k != j {
                        let m = digit_comma_end(s, k);
                        if m != k {
                            if m < s.len() && s[m] == '.' {
                                let e = digit_end(s, m + 1);
                                return Some((k, e));
                            } else {
                                return Some((k, m));
                            }
                        }
                    }
                },
                None => {},
            }
            i = i + 1;
        }
        None
    }

    /// The charge (`CHG`, `COMM`, `VAT`, `FEE`, `DUTY`, `LEVY`, `EMTL` followed by an
    /// amount) mentioned in a narration, zero when there is none.
    fn extract_charge(&self, narration: &String) -> (r: Amount)
        ensures
            r@ == charge_of(narration@),
            !r@.negative,
    {
        let s = crate::text::chars_of(narration.as_str());
        match Self::charge_span(&s) {
            Some((k, e)) => {
                proof {
                    lemma_charge_has_no_minus(s@, 0, k as int, e as int);
                }
                let mut digits: Vec<char> = Vec::new();
                let mut j: usize = k;
                while j < e
                    invariant
                        k <= j <= e <= s.len(),
                        digits@ == without_commas(s@.subrange(k as int, j as int)),
                        forall|t: int| k <= t < e ==> s@[t] != '-',
                        forall|t: int| 0 <= t < digits@.len() ==> digits@[t] != '-',
                    decreases e - j,
                {
                    proof {
                        assert(s@.subrange(k as int, j + 1).drop_last() =~= s@.subrange(k as int, j as int));
                    }
                    if s[j] != ',' {
                        digits.push(s[j]);
                    }
                    j = j + 1;
                }
                let text = string_of(&digits);
                proof {
                    if text@.contains('-') {
                        let t = choose|t: int| 0 <= t < text@.len() && text@[t] == '-';
                        assert(digits@[t] == '-');
                    }
                }
                match Amount::parse(text.as_str()) {
                    Some(v) => v,
                    None => Amount::zero(),
                }
            },
            None => Amount::zero(),
        }
    }


    /// Appends `w` unless a word with the same text is already there.
    pub(crate) fn push_unique(out: &mut Vec<String>, w: String)
        ensures
            final(out)@.map_values(|x: String| x@) == (if old(out)@.map_values(|x: String| x@).contains(w@) {
                old(out)@.map_values(|x: String| x@)
            } else {
                old(out)@.map_values(|x: String| x@).push(w@)
            }),
    {
        let ghost before = out@.map_values(|x: String| x@);
        let mut present = false;
        let mut j: usize = 0;
        while j < out.len()
            invariant
                j <= out.len(),
                before == out@.map_values(|x: String| x@),
                present == (exists|m: int| 0 <= m < j && before[m] == w@),
            decreases out.len() - j,
        {
            assert(before[j as int] == out@[j as int]@);
            if out[j] == w {
                present = true;
            }
            j = j + 1;
        }
        proof {
            if present {
                let m = choose|m: int| 0 <= m < j && before[m] == w@;
                assert(before.contains(w@));
            } else {
                assert(!before.contains(w@));
            }
        }
        if !present {
            let ghost wv = w@;
            out.push(w);
            proof {
                assert(out@.map_values(|x: String| x@) =~= before.push(wv));
            }
        }
    }

    /// The distinct upper-case alphanumeric words of a narration.
    fn split_narration(narration: &String) -> (r: Vec<String>)
        ensures
            r@.map_values(|x: String| x@) == narration_words(narration@),
    {
        let upper = to_uppercase(narration.as_str());
        let s = chars_of(upper.as_str());
        let mut out: Vec<String> = Vec::new();
        let mut cur: Vec<char> = Vec::new();
        let ghost mut done: Seq<Seq<char>> = Seq::empty();
        let mut i: usize = 0;
        while i < s.len()
            invariant
                i <= s.len(),
                s@ == unicode_upper(narration@),
                split_state(s@, i as int) == (done, cur@),
                out@.map_values(|x: String| x@) == dedupe(done),
            decreases s.len() - i,
        {
            let c = s[i];
            if is_alphanumeric(c) {
                cur.push(c);
            } else if cur.len() > 0 {
                let w = string_of(&cur);
                proof {
                    assert(done.push(w@).drop_last() =~= done);
                }
                Self::push_unique(&mut out, w);
                proof {
                    done = done.push(cur@);
                }
                cur = Vec::new();
            } else {
                cur = Vec::new();
            }
            proof {
                assert(cur@ == split_state(s@, i + 1).1);
            }
            i = i + 1;
        }
        if cur.len() > 0 {
            let w = string_of(&cur);
            proof {
                assert(done.push(w@).drop_last() =~= done);
            }
            Self::push_unique(&mut out, w);
            proof {
                done = done.push(cur@);
            }
        }
        out
    }

    /// Categorises one statement row: its charge, its role (a pattern first, then a
    /// keyword, after correcting misspellings; then refined by the kind of tax payer and
    /// the direction of the money) and the confidence of that role.
    pub fn analyze_raw_statment(&self, raw: RawStatement, user_type: TaxEntity) -> (r: ParsedTransaction)
        ensures
            r.amount == raw.amount,
            r.narration == raw.narration,
            r.date == raw.date,
            r.charges@ == charge_of(raw.narration@),
            !r.charges@.negative,
            (r.role, r.confidence) == analysis_of(*self, raw.narration@, raw.amount@, user_type),
    {
        let check = self.extract_charge(&raw.narration);
        let narration_words = Self::split_narration(&raw.narration);
        let corrected_words = self.fuzzy_checker(&narration_words);
        let (base_role, confidence) = self.layer_processor(&corrected_words);
        let role = match user_type {
            TaxEntity::PIT => self.refine_for_pit(base_role, raw.amount),
            TaxEntity::LLC => self.refine_for_llc(base_role, raw.amount),
        };
        ParsedTransaction {
            amount: raw.amount,
            narration: raw.narration,
            role,
            confidence,
            charges: check,
            date: raw.date,
        }
    }

    /// Categorises a batch of statement rows, spread over the available cores; the rows
    /// come back in the order given.
    pub fn analyze_batch_parallel(&self, statements: Vec<RawStatement>, user_type: TaxEntity) -> (r: Vec<ParsedTransaction>)
        ensures
            r@.len() == statements@.len(),
            forall|i: int| 0 <= i < r@.len() ==> analyzed_row(*self, statements@[i], user_type, #[trigger] r@[i]),
    {
        analyze_in_parallel(self, statements, user_type)
    }

    fn keyword_role(&self, word: &String) -> (r: Option<TransactionRole>)
        ensures
            r == lookup_keyword(self.keyword_table(), word@),
    {
        let mut i: usize = 0;
        proof {
            assert(self.keyword_table().subrange(0, self.keyword_table().len() as int) =~= self.keyword_table());
        }
        while i < self.keywords_container.len()
            invariant
                i <= self.keywords_container.len(),
                lookup_keyword(self.keyword_table(), word@) == lookup_keyword(self.keyword_table().subrange(i as int, self.keyword_table().len() as int), word@),
            decreases self.keywords_container.len() - i,
        {
            let ghost rest = self.keyword_table().subrange(i as int, self.keyword_table().len() as int);
            if self.keywords_container[i].0 == *word {
                return Some(self.keywords_container[i].1);
            }
            proof {
                assert(rest.drop_first() =~= self.keyword_table().subrange(i + 1, self.keyword_table().len() as int));
            }
            i = i + 1;
        }
        None
    }
}

} // verus!
