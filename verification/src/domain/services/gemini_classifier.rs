//! The deterministic parts of the AI fallback classifier: the prompt sent to the model,
//! the cleaning of its JSON answer, and the validation of that answer into a role,
//! confidence, reason and a lexicon suggestion.

use vstd::prelude::*;
use crate::domain::entities::{TaxEntity, TransactionRole};
use crate::domain::services::categorizer::alnum_words;
use crate::text::{
    trim, starts_with, occurs_at, unicode_upper, texts_view, chars_of, string_of, trim_chars,
    to_uppercase, text_is, starts_with_exec, matches_at, is_alphanumeric, all_ascii, is_ascii_alpha, is_ascii_digit,
    ascii_upper, upper_char, lemma_ascii_upper_stable, lemma_ascii_upper_ws, lemma_trim_props, lemma_trim_fixed,
};
use crate::domain::services::categorizer::{category_role, split_state, dedupe, TransactionCategorizer, lemma_dedupe_distinct, lemma_dedupe_fixed, ascii_texts};

verus! {

/// A rule the model suggests teaching the lexicon.
#[derive(Debug, Clone)]
pub struct AiLexiconSuggestion {
    /// The top-level lexicon category.
    pub category: String,
    pub keywords: Vec<String>,
    pub patterns: Vec<Vec<String>>,
}

/// The model's validated answer.
#[derive(Debug, Clone)]
pub struct AiClassification {
    pub role: TransactionRole,
    pub confidence: u32,
    pub reason: String,
    pub lexicon_suggestion: AiLexiconSuggestion,
}

/// Failures of the AI classifier.
#[derive(Debug, Clone, PartialEq, Eq)]
pub enum AiClassifierError {
    MissingApiKey,
    TaxLawReadFailed(String),
    RequestFailed(String),
    InvalidJson(String),
    UnsupportedRole(String),
}

impl AiClassifierError {
    /// The error's message.
    pub fn message(&self) -> (r: String)
        ensures
            r@ == error_message(*self),
    {
        match self {
            AiClassifierError::MissingApiKey => String::from_str("missing gemini api key"),
            AiClassifierError::TaxLawReadFailed(e) => {
                let mut m = String::from_str("failed to read tax law context: ");
                m.append(e.as_str());
                m
            },
            AiClassifierError::RequestFailed(e) => {
                let mut m = String::from_str("gemini request failed: ");
                m.append(e.as_str());
                m
            },
            AiClassifierError::InvalidJson(e) => {
                let mut m = String::from_str("gemini returned invalid json: ");
                m.append(e.as_str());
                m
            },
            AiClassifierError::UnsupportedRole(e) => {
                let mut m = String::from_str("gemini returned unsupported role: ");
                m.append(e.as_str());
                m
            },
        }
    }
}

pub open spec fn error_message(e: AiClassifierError) -> Seq<char> {
    match e {
        AiClassifierError::MissingApiKey => "missing gemini api key"@,
        AiClassifierError::TaxLawReadFailed(s) => "failed to read tax law context: "@ + s@,
        AiClassifierError::RequestFailed(s) => "gemini request failed: "@ + s@,
        AiClassifierError::InvalidJson(s) => "gemini returned invalid json: "@ + s@,
        AiClassifierError::UnsupportedRole(s) => "gemini returned unsupported role: "@ + s@,
    }
}

/// The fields of the JSON object the model is asked to answer with.
#[derive(Debug, Clone)]
pub struct GeminiOutput {
    pub role: String,
    pub confidence: Option<u32>,
    pub reason: Option<String>,
    pub keywords: Option<Vec<String>>,
    pub patterns: Option<Vec<Vec<String>>>,
}

/// The instructions that open every prompt, up to the entity type.
pub open spec fn prompt_head() -> Seq<char> {
    "you are classifying nigerian bank transaction narrations for a tax engine.\n\nyour output must be strict json with this shape:\n{\n  \"role\": \"Income|BusinessExp|Salary|TaxExempt|Utilities|Rent|Relief|Deduction|PersonalExp|PassThrough|Unknown\",\n  \"confidence\": 0..100,\n  \"reason\": \"short reason\",\n  \"keywords\": [\"UPPERCASE WORD\"],\n  \"patterns\": [[\"UPPER\",\"WORDS\"]]\n}\n\nrules:\n- use the tax law context below before deciding\n- keep SCHOOL and TUITION under Relief when that fits the narration\n- choose PassThrough only when funds are clearly received/held/remitted for a third party\n- avoid Unknown unless genuinely ambiguous\n- keywords and pattern tokens must be uppercase\n- patterns should be short and reusable, not full sentences\n\nentity_type: "@
}

pub open spec fn entity_name(user_type: TaxEntity) -> Seq<char> {
    match user_type {
        TaxEntity::PIT => "PIT"@,
        TaxEntity::LLC => "LLC"@,
    }
}

/// The prompt: the fixed instructions and output shape, then the entity type, the
/// amount's sign, the narration and the tax law context.
pub open spec fn prompt_text(narration: Seq<char>, amount: Seq<char>, user_type: TaxEntity, laws: Seq<char>) -> Seq<char> {
    prompt_head() + entity_name(user_type) + "\namount_sign: "@ + amount + "\nnarration: "@ + narration
        + "\n\ntax law context:\n"@ + laws
}

/// Builds the classification prompt for one narration.
pub fn build_prompt(narration: &str, amount: &str, user_type: TaxEntity, tax_law_context: &str) -> (r: String)
    ensures
        r@ == prompt_text(narration@, amount@, user_type, tax_law_context@),
{
    let mut p = String::from_str("you are classifying nigerian bank transaction narrations for a tax engine.\n\nyour output must be strict json with this shape:\n{\n  \"role\": \"Income|BusinessExp|Salary|TaxExempt|Utilities|Rent|Relief|Deduction|PersonalExp|PassThrough|Unknown\",\n  \"confidence\": 0..100,\n  \"reason\": \"short reason\",\n  \"keywords\": [\"UPPERCASE WORD\"],\n  \"patterns\": [[\"UPPER\",\"WORDS\"]]\n}\n\nrules:\n- use the tax law context below before deciding\n- keep SCHOOL and TUITION under Relief when that fits the narration\n- choose PassThrough only when funds are clearly received/held/remitted for a third party\n- avoid Unknown unless genuinely ambiguous\n- keywords and pattern tokens must be uppercase\n- patterns should be short and reusable, not full sentences\n\nentity_type: ");
    match user_type {
        TaxEntity::PIT => p.append("PIT"),
        TaxEntity::LLC => p.append("LLC"),
    }
    p.append("\namount_sign: ");
    p.append(amount);
    p.append("\nnarration: ");
    p.append(narration);
    p.append("\n\ntax law context:\n");
    p.append(tax_law_context);
    p
}

/// `str::trim_start_matches` with a text pattern: every leading copy of `p` removed.
pub open spec fn strip_prefix_repeated(s: Seq<char>, p: Seq<char>) -> Seq<char>
    decreases s.len(),
{
    if p.len() > 0 && starts_with(s, p) {
        strip_prefix_repeated(s.skip(p.len() as int), p)
    } else {
        s
    }
}

pub open spec fn ends_with(s: Seq<char>, p: Seq<char>) -> bool {
    occurs_at(s, p, s.len() - p.len())
}

/// `str::trim_end_matches` with a text pattern: every trailing copy of `p` removed.
pub open spec fn strip_suffix_repeated(s: Seq<char>, p: Seq<char>) -> Seq<char>
    decreases s.len(),
{
    if p.len() > 0 && ends_with(s, p) {
        strip_suffix_repeated(s.take(s.len() - p.len()), p)
    } else {
        s
    }
}

/// The model's text with surrounding whitespace and Markdown code fences removed.
pub open spec fn cleaned_json(raw: Seq<char>) -> Seq<char> {
    trim(strip_suffix_repeated(strip_prefix_repeated(strip_prefix_repeated(trim(raw), "```json"@), "```"@), "```"@))
}

fn strip_prefix_exec(s: Vec<char>, p: &Vec<char>) -> (r: Vec<char>)
    ensures
        r@ == strip_prefix_repeated(s@, p@),
{
    let mut cur = s;
    if p.len() == 0 {
        return cur;
    }
    while starts_with_exec(&cur, p)
        invariant
            p@.len() > 0,
            strip_prefix_repeated(s@, p@) == strip_prefix_repeated(cur@, p@),
        decreases cur@.len(),
    {
        let mut next: Vec<char> = Vec::new();
        let mut k = p.len();
        while k < cur.len()
            invariant
                p.len() <= k <= cur.len(),
                next@ == cur@.subrange(p.len() as int, k as int),
            decreases cur.len() - k,
        {
            next.push(cur[k]);
            proof {
                assert(cur@.subrange(p.len() as int, k + 1) =~= cur@.subrange(p.len() as int, k as int).push(cur@[k as int]));
            }
            k = k + 1;
        }
        proof {
            assert(next@ =~= cur@.skip(p@.len() as int));
        }
        cur = next;
    }
    cur
}

fn strip_suffix_exec(s: Vec<char>, p: &Vec<char>) -> (r: Vec<char>)
    ensures
        r@ == strip_suffix_repeated(s@, p@),
{
    let mut cur = s;
    if p.len() == 0 {
        return cur;
    }
    while cur.len() >= p.len() && matches_at(&cur, p, cur.len() - p.len())
        invariant
            p@.len() > 0,
            strip_suffix_repeated(s@, p@) == strip_suffix_repeated(cur@, p@),
        decreases cur@.len(),
    {
        let end = cur.len() - p.len();
        let mut next: Vec<char> = Vec::new();
        let mut k: usize = 0;
        while k < end
            invariant
                k <= end <= cur.len(),
                next@ == cur@.take(k as int),
            decreases end - k,
        {
            next.push(cur[k]);
            proof {
                assert(cur@.take(k + 1) =~= cur@.take(k as int).push(cur@[k as int]));
            }
            k = k + 1;
        }
        cur = next;
    }
    proof {
        if cur@.len() < p@.len() {
            assert(!ends_with(cur@, p@));
        }
    }
    cur
}

/// Strips whitespace and Markdown code fences from the model's answer.
pub fn cleanup_json_text(raw: &str) -> (r: String)
    ensures
        r@ == cleaned_json(raw@),
{
    let a = trim_chars(&chars_of(raw));
    let b = strip_prefix_exec(a, &chars_of("```json"));
    let c = strip_prefix_exec(b, &chars_of("```"));
    let d = strip_suffix_exec(c, &chars_of("```"));
    string_of(&trim_chars(&d))
}

/// The role an upper-case name stands for.
pub open spec fn role_named(name: Seq<char>) -> Option<TransactionRole> {
    if name == "INCOME"@ {
        Some(TransactionRole::Income)
    } else if name == "BUSINESSEXP"@ || name == "BUSINESS_EXP"@ || name == "BUSINESS_EXPENSE"@ {
        Some(TransactionRole::BusinessExp)
    } else if name == "SALARY"@ {
        Some(TransactionRole::Salary)
    } else if name == "TAXEXEMPT"@ || name == "TAX_EXEMPT"@ {
        Some(TransactionRole::TaxExempt)
    } else if name == "UTILITIES"@ {
        Some(TransactionRole::Utilities)
    } else if name == "RENT"@ {
        Some(TransactionRole::Rent)
    } else if name == "RELIEF"@ {
        Some(TransactionRole::Relief)
    } else if name == "DEDUCTION"@ {
        Some(TransactionRole::Deduction)
    } else if name == "PERSONALEXP"@ || name == "PERSONAL_EXP"@ {
        Some(TransactionRole::PersonalExp)
    } else if name == "PASSTHROUGH"@ || name == "PASS_THROUGH"@ || name == "PASS-THROUGH"@ {
        Some(TransactionRole::PassThrough)
    } else if name == "UNKNOWN"@ {
        Some(TransactionRole::Unknown)
    } else {
        None
    }
}

/// Every role name the prompt offers the model (Income, BusinessExp, Salary, TaxExempt,
/// Utilities, Rent, Relief, Deduction, PersonalExp, PassThrough, Unknown) names its role in
/// any ASCII case once `parse_role` has trimmed and upper-cased it, and so do the spellings
/// with an underscore or a hyphen.
pub proof fn lemma_prompt_role_names()
    ensures
        role_named(ascii_upper("Income"@)) == Some(TransactionRole::Income),
        role_named(ascii_upper("BusinessExp"@)) == Some(TransactionRole::BusinessExp),
        role_named(ascii_upper("Salary"@)) == Some(TransactionRole::Salary),
        role_named(ascii_upper("TaxExempt"@)) == Some(TransactionRole::TaxExempt),
        role_named(ascii_upper("Utilities"@)) == Some(TransactionRole::Utilities),
        role_named(ascii_upper("Rent"@)) == Some(TransactionRole::Rent),
        role_named(ascii_upper("Relief"@)) == Some(TransactionRole::Relief),
        role_named(ascii_upper("Deduction"@)) == Some(TransactionRole::Deduction),
        role_named(ascii_upper("PersonalExp"@)) == Some(TransactionRole::PersonalExp),
        role_named(ascii_upper("PassThrough"@)) == Some(TransactionRole::PassThrough),
        role_named(ascii_upper("Unknown"@)) == Some(TransactionRole::Unknown),
        role_named("BUSINESS_EXP"@) == Some(TransactionRole::BusinessExp),
        role_named("BUSINESS_EXPENSE"@) == Some(TransactionRole::BusinessExp),
        role_named("TAX_EXEMPT"@) == Some(TransactionRole::TaxExempt),
        role_named("PERSONAL_EXP"@) == Some(TransactionRole::PersonalExp),
        role_named("PASS_THROUGH"@) == Some(TransactionRole::PassThrough),
        role_named("PASS-THROUGH"@) == Some(TransactionRole::PassThrough),
{
    reveal_strlit("INCOME");
    reveal_strlit("BUSINESSEXP");
    reveal_strlit("SALARY");
    reveal_strlit("TAXEXEMPT");
    reveal_strlit("UTILITIES");
    reveal_strlit("RENT");
    reveal_strlit("RELIEF");
    reveal_strlit("DEDUCTION");
    reveal_strlit("PERSONALEXP");
    reveal_strlit("PASSTHROUGH");
    reveal_strlit("UNKNOWN");
    reveal_strlit("BUSINESS_EXP");
    reveal_strlit("BUSINESS_EXPENSE");
    reveal_strlit("TAX_EXEMPT");
    reveal_strlit("PERSONAL_EXP");
    reveal_strlit("PASS_THROUGH");
    reveal_strlit("PASS-THROUGH");
    reveal_strlit("Income");
    reveal_strlit("BusinessExp");
    reveal_strlit("Salary");
    reveal_strlit("TaxExempt");
    reveal_strlit("Utilities");
    reveal_strlit("Rent");
    reveal_strlit("Relief");
    reveal_strlit("Deduction");
    reveal_strlit("PersonalExp");
    reveal_strlit("PassThrough");
    reveal_strlit("Unknown");
    assert("INCOME"@.len() == 6 && "INCOME"@[0] == 'I' && "INCOME"@[1] == 'N' && "INCOME"@[5] == 'E');
    assert("BUSINESSEXP"@.len() == 11 && "BUSINESSEXP"@[0] == 'B' && "BUSINESSEXP"@[1] == 'U' && "BUSINESSEXP"@[10] == 'P');
    assert("SALARY"@.len() == 6 && "SALARY"@[0] == 'S' && "SALARY"@[1] == 'A' && "SALARY"@[5] == 'Y');
    assert("TAXEXEMPT"@.len() == 9 && "TAXEXEMPT"@[0] == 'T' && "TAXEXEMPT"@[1] == 'A' && "TAXEXEMPT"@[8] == 'T');
    assert("UTILITIES"@.len() == 9 && "UTILITIES"@[0] == 'U' && "UTILITIES"@[1] == 'T' && "UTILITIES"@[8] == 'S');
    assert("RENT"@.len() == 4 && "RENT"@[0] == 'R' && "RENT"@[1] == 'E' && "RENT"@[3] == 'T');
    assert("RELIEF"@.len() == 6 && "RELIEF"@[0] == 'R' && "RELIEF"@[1] == 'E' && "RELIEF"@[5] == 'F');
    assert("DEDUCTION"@.len() == 9 && "DEDUCTION"@[0] == 'D' && "DEDUCTION"@[1] == 'E' && "DEDUCTION"@[8] == 'N');
    assert("PERSONALEXP"@.len() == 11 && "PERSONALEXP"@[0] == 'P' && "PERSONALEXP"@[1] == 'E' && "PERSONALEXP"@[10] == 'P');
    assert("PASSTHROUGH"@.len() == 11 && "PASSTHROUGH"@[0] == 'P' && "PASSTHROUGH"@[1] == 'A' && "PASSTHROUGH"@[10] == 'H');
    assert("UNKNOWN"@.len() == 7 && "UNKNOWN"@[0] == 'U' && "UNKNOWN"@[1] == 'N' && "UNKNOWN"@[6] == 'N');
    assert("BUSINESS_EXP"@.len() == 12 && "BUSINESS_EXP"@[0] == 'B' && "BUSINESS_EXP"@[1] == 'U' && "BUSINESS_EXP"@[11] == 'P');
    assert("BUSINESS_EXPENSE"@.len() == 16 && "BUSINESS_EXPENSE"@[0] == 'B' && "BUSINESS_EXPENSE"@[1] == 'U' && "BUSINESS_EXPENSE"@[15] == 'E');
    assert("TAX_EXEMPT"@.len() == 10 && "TAX_EXEMPT"@[0] == 'T' && "TAX_EXEMPT"@[1] == 'A' && "TAX_EXEMPT"@[9] == 'T');
    assert("PERSONAL_EXP"@.len() == 12 && "PERSONAL_EXP"@[0] == 'P' && "PERSONAL_EXP"@[1] == 'E' && "PERSONAL_EXP"@[11] == 'P');
    assert("PASS_THROUGH"@.len() == 12 && "PASS_THROUGH"@[0] == 'P' && "PASS_THROUGH"@[1] == 'A' && "PASS_THROUGH"@[11] == 'H');
    assert("PASS-THROUGH"@.len() == 12 && "PASS-THROUGH"@[0] == 'P' && "PASS-THROUGH"@[1] == 'A' && "PASS-THROUGH"@[11] == 'H');
    assert(ascii_upper("Income"@) =~= "INCOME"@);
    assert(ascii_upper("BusinessExp"@) =~= "BUSINESSEXP"@);
    assert(ascii_upper("Salary"@) =~= "SALARY"@);
    assert(ascii_upper("TaxExempt"@) =~= "TAXEXEMPT"@);
    assert(ascii_upper("Utilities"@) =~= "UTILITIES"@);
    assert(ascii_upper("Rent"@) =~= "RENT"@);
    assert(ascii_upper("Relief"@) =~= "RELIEF"@);
    assert(ascii_upper("Deduction"@) =~= "DEDUCTION"@);
    assert(ascii_upper("PersonalExp"@) =~= "PERSONALEXP"@);
    assert(ascii_upper("PassThrough"@) =~= "PASSTHROUGH"@);
    assert(ascii_upper("Unknown"@) =~= "UNKNOWN"@);
}

/// The role the model names (trimmed, in upper case); any other name is unsupported.
pub fn parse_role(raw: &str) -> (r: Result<TransactionRole, AiClassifierError>)
    ensures
        all_ascii(raw@) ==> unicode_upper(trim(raw@)) == ascii_upper(trim(raw@)),
        match role_named(unicode_upper(trim(raw@))) {
            Some(role) => r == Ok::<TransactionRole, AiClassifierError>(role),
            None => r matches Err(AiClassifierError::UnsupportedRole(t)) && t@ == unicode_upper(trim(raw@)),
        },
{
    let trimmed = string_of(&trim_chars(&chars_of(raw)));
    let name = to_uppercase(trimmed.as_str());
    proof {
        lemma_trim_props(raw@);
    }
    if text_is(&name, "INCOME") {
        Ok(TransactionRole::Income)
    } else if text_is(&name, "BUSINESSEXP") || text_is(&name, "BUSINESS_EXP") || text_is(&name, "BUSINESS_EXPENSE") {
        Ok(TransactionRole::BusinessExp)
    } else if text_is(&name, "SALARY") {
        Ok(TransactionRole::Salary)
    } else if text_is(&name, "TAXEXEMPT") || text_is(&name, "TAX_EXEMPT") {
        Ok(TransactionRole::TaxExempt)
    } else if text_is(&name, "UTILITIES") {
        Ok(TransactionRole::Utilities)
    } else if text_is(&name, "RENT") {
        Ok(TransactionRole::Rent)
    } else if text_is(&name, "RELIEF") {
        Ok(TransactionRole::Relief)
    } else if text_is(&name, "DEDUCTION") {
        Ok(TransactionRole::Deduction)
    } else if text_is(&name, "PERSONALEXP") || text_is(&name, "PERSONAL_EXP") {
        Ok(TransactionRole::PersonalExp)
    } else if text_is(&name, "PASSTHROUGH") || text_is(&name, "PASS_THROUGH") || text_is(&name, "PASS-THROUGH") {
        Ok(TransactionRole::PassThrough)
    } else if text_is(&name, "UNKNOWN") {
        Ok(TransactionRole::Unknown)
    } else {
        Err(AiClassifierError::UnsupportedRole(name))
    }
}

/// The top-level lexicon category a role's rules are filed under.
pub open spec fn category_of(role: TransactionRole) -> Seq<char> {
    match role {
        TransactionRole::Income => "income"@,
        TransactionRole::BusinessExp => "business_exp"@,
        TransactionRole::Salary => "income"@,
        TransactionRole::TaxExempt => "tax_exempt"@,
        TransactionRole::Utilities => "business_exp"@,
        TransactionRole::Rent => "relief"@,
        TransactionRole::Relief => "relief"@,
        TransactionRole::Deduction => "deduction"@,
        TransactionRole::PersonalExp => "personal_exp"@,
        TransactionRole::PassThrough => "pass_through"@,
        TransactionRole::Unknown => "unknown"@,
    }
}

/// The lexicon category a suggested rule is filed under names its role back, for every
/// role with a category of its own; salary is filed with income, utilities with business
/// expenses and rent with reliefs.
pub proof fn lemma_suggestion_category_names_role(role: TransactionRole)
    ensures
        role != TransactionRole::Salary && role != TransactionRole::Utilities && role != TransactionRole::Rent
            ==> category_role(category_of(role)) == role,
        role == TransactionRole::Salary ==> category_role(category_of(role)) == TransactionRole::Income,
        role == TransactionRole::Utilities ==> category_role(category_of(role)) == TransactionRole::BusinessExp,
        role == TransactionRole::Rent ==> category_role(category_of(role)) == TransactionRole::Relief,
{
    reveal_strlit("income");
    reveal_strlit("business_exp");
    reveal_strlit("tax_exempt");
    reveal_strlit("deduction");
    reveal_strlit("relief");
    reveal_strlit("personal_exp");
    reveal_strlit("pass_through");
    reveal_strlit("unknown");
    assert("income"@.len() == 6 && "income"@[0] == 'i' && "income"@[1] == 'n');
    assert("business_exp"@.len() == 12 && "business_exp"@[0] == 'b' && "business_exp"@[1] == 'u');
    assert("tax_exempt"@.len() == 10 && "tax_exempt"@[0] == 't' && "tax_exempt"@[1] == 'a');
    assert("deduction"@.len() == 9 && "deduction"@[0] == 'd' && "deduction"@[1] == 'e');
    assert("relief"@.len() == 6 && "relief"@[0] == 'r' && "relief"@[1] == 'e');
    assert("personal_exp"@.len() == 12 && "personal_exp"@[0] == 'p' && "personal_exp"@[1] == 'e');
    assert("pass_through"@.len() == 12 && "pass_through"@[0] == 'p' && "pass_through"@[1] == 'a');
    assert("unknown"@.len() == 7 && "unknown"@[0] == 'u' && "unknown"@[1] == 'n');
}

pub fn role_to_lexicon_category(role: TransactionRole) -> (r: &'static str)
    ensures
        r@ == category_of(role),
{
    match role {
        TransactionRole::Income => "income",
        TransactionRole::BusinessExp => "business_exp",
        TransactionRole::Salary => "income",
        TransactionRole::TaxExempt => "tax_exempt",
        TransactionRole::Utilities => "business_exp",
        TransactionRole::Rent => "relief",
        TransactionRole::Relief => "relief",
        TransactionRole::Deduction => "deduction",
        TransactionRole::PersonalExp => "personal_exp",
        TransactionRole::PassThrough => "pass_through",
        TransactionRole::Unknown => "unknown",
    }
}


/// A word trimmed and in upper case.
pub open spec fn cleaned_word(w: Seq<char>) -> Seq<char> {
    unicode_upper(trim(w))
}

/// The words cleaned, the empty ones dropped, in order.
pub open spec fn cleaned_words(ws: Seq<Seq<char>>) -> Seq<Seq<char>>
    decreases ws.len(),
{
    if ws.len() == 0 {
        Seq::empty()
    } else {
        let prev = cleaned_words(ws.drop_last());
        if cleaned_word(ws.last()).len() == 0 {
            prev
        } else {
            prev.push(cleaned_word(ws.last()))
        }
    }
}

/// Keywords cleaned, the empty ones dropped, each kept once (its first time).
pub open spec fn normalized_keywords(ws: Seq<Seq<char>>) -> Seq<Seq<char>> {
    dedupe(cleaned_words(ws))
}

/// Each pattern's words cleaned and the empty ones dropped; patterns left empty dropped.
pub open spec fn normalized_patterns(ps: Seq<Seq<Seq<char>>>) -> Seq<Seq<Seq<char>>>
    decreases ps.len(),
{
    if ps.len() == 0 {
        Seq::empty()
    } else {
        let prev = normalized_patterns(ps.drop_last());
        if cleaned_words(ps.last()).len() == 0 {
            prev
        } else {
            prev.push(cleaned_words(ps.last()))
        }
    }
}

pub open spec fn patterns_view(v: Seq<Vec<String>>) -> Seq<Seq<Seq<char>>> {
    v.map_values(|p: Vec<String>| texts_view(p@))
}

/// Cleaning an ASCII word a second time changes nothing.
pub open spec fn clean_stable(w: Seq<char>) -> bool {
    all_ascii(w) && cleaned_word(w) == w
}

fn clean_word(w: &String) -> (r: String)
    ensures
        r@ == cleaned_word(w@),
        all_ascii(w@) ==> clean_stable(r@),
{
    let trimmed = string_of(&trim_chars(&chars_of(w.as_str())));
    let up = to_uppercase(trimmed.as_str());
    proof {
        if all_ascii(w@) {
            lemma_trim_props(w@);
            let t = trimmed@;
            lemma_ascii_upper_stable(t);
            lemma_ascii_upper_ws(t);
            if t.len() > 0 {
                assert(ascii_upper(t)[0] == ascii_upper(t)[0]);
                assert(ascii_upper(t).last() == ascii_upper(t)[t.len() - 1]);
            }
            lemma_trim_fixed(up@);
        }
    }
    up
}

fn clean_words(input: &Vec<String>) -> (r: Vec<String>)
    ensures
        texts_view(r@) == cleaned_words(texts_view(input@)),
        ascii_texts(texts_view(input@)) ==> forall|k: int| 0 <= k < r@.len() ==> clean_stable(#[trigger] r@[k]@),
{
    let ghost iv = texts_view(input@);
    let mut out: Vec<String> = Vec::new();
    let mut i: usize = 0;
    while i < input.len()
        invariant
            i <= input.len(),
            iv == texts_view(input@),
            texts_view(out@) == cleaned_words(iv.take(i as int)),
            ascii_texts(iv) ==> forall|k: int| 0 <= k < out@.len() ==> clean_stable(#[trigger] out@[k]@),
        decreases input.len() - i,
    {
        proof {
            if ascii_texts(iv) {
                assert(all_ascii(iv[i as int]));
            }
        }
        let clean = clean_word(&input[i]);
        proof {
            assert(iv.take(i + 1).drop_last() =~= iv.take(i as int));
            assert(iv.take(i + 1).last() == input@[i as int]@);
        }
        if !clean.as_str().is_empty() {
            let ghost before = texts_view(out@);
            let ghost cv = clean@;
            out.push(clean);
            proof {
                assert(texts_view(out@) =~= before.push(cv));
            }
        }
        i = i + 1;
    }
    proof {
        assert(iv.take(input.len() as int) =~= iv);
    }
    out
}

/// Cleaned words that clean to themselves, none of them empty, clean to themselves as a
/// whole.
proof fn lemma_cleaned_words_fixed(ws: Seq<Seq<char>>)
    requires
        forall|k: int| 0 <= k < ws.len() ==> clean_stable(#[trigger] ws[k]) && ws[k].len() > 0,
    ensures
        cleaned_words(ws) == ws,
    decreases ws.len(),
{
    if ws.len() > 0 {
        let p = ws.drop_last();
        assert forall|k: int| 0 <= k < p.len() implies clean_stable(#[trigger] p[k]) && p[k].len() > 0 by {
            assert(p[k] == ws[k]);
        }
        lemma_cleaned_words_fixed(p);
        assert(clean_stable(ws[ws.len() - 1]));
        assert(p.push(ws.last()) =~= ws);
    }
}

/// Keywords trimmed, in upper case, without empty ones or repeats. Keywords given as
/// ASCII text come out as a list that normalising again leaves as it is.
pub fn normalize_keywords(input: Vec<String>) -> (r: Vec<String>)
    ensures
        texts_view(r@) == normalized_keywords(texts_view(input@)),
        texts_view(r@).no_duplicates(),
        forall|k: int| 0 <= k < r@.len() ==> (#[trigger] r@[k])@.len() > 0,
        ascii_texts(texts_view(input@)) ==> normalized_keywords(texts_view(r@)) == texts_view(r@),
{
    let cleaned = clean_words(&input);
    let ghost cv = texts_view(cleaned@);
    proof {
        assert forall|k: int| 0 <= k < cleaned@.len() implies cv[k] == (#[trigger] cleaned@[k])@ by {}
    }
    let mut out: Vec<String> = Vec::new();
    let mut i: usize = 0;
    while i < cleaned.len()
        invariant
            i <= cleaned.len(),
            cv == texts_view(cleaned@),
            texts_view(out@) == dedupe(cv.take(i as int)),
        decreases cleaned.len() - i,
    {
        proof {
            assert(cv.take(i + 1).drop_last() =~= cv.take(i as int));
            assert(cv.take(i + 1).last() == cleaned@[i as int]@);
            assert(texts_view(out@) =~= out@.map_values(|x: String| x@));
        }
        TransactionCategorizer::push_unique(&mut out, cleaned[i].clone());
        proof {
            assert(texts_view(out@) =~= out@.map_values(|x: String| x@));
        }
        i = i + 1;
    }
    proof {
        assert(cv.take(cleaned.len() as int) =~= cv);
        lemma_dedupe_distinct(cv);
        lemma_cleaned_words_nonempty(texts_view(input@));
        assert(texts_view(out@) == dedupe(cv));
        assert forall|k: int| 0 <= k < out@.len() implies (#[trigger] out@[k])@.len() > 0 by {
            assert(texts_view(out@)[k] == out@[k]@);
            assert(dedupe(cv).contains(out@[k]@));
            assert(cv.contains(out@[k]@));
            let j = choose|j: int| 0 <= j < cv.len() && cv[j] == out@[k]@;
            assert(cv[j] == cleaned_words(texts_view(input@))[j]);
        }
        if ascii_texts(texts_view(input@)) {
            let ov = texts_view(out@);
            assert forall|k: int| 0 <= k < ov.len() implies clean_stable(#[trigger] ov[k]) && ov[k].len() > 0 by {
                assert(ov[k] == out@[k]@);
                assert(ov == dedupe(cv));
                assert(dedupe(cv)[k] == ov[k]);
                assert(dedupe(cv).contains(ov[k]));
                assert(cv.contains(ov[k]));
                let j = choose|j: int| 0 <= j < cv.len() && cv[j] == ov[k];
                assert(cv[j] == cleaned@[j]@);
            }
            lemma_cleaned_words_fixed(ov);
            lemma_dedupe_fixed(ov);
        }
    }
    out
}

proof fn lemma_cleaned_words_nonempty(ws: Seq<Seq<char>>)
    ensures
        forall|k: int| 0 <= k < cleaned_words(ws).len() ==> (#[trigger] cleaned_words(ws)[k]).len() > 0,
    decreases ws.len(),
{
    if ws.len() > 0 {
        lemma_cleaned_words_nonempty(ws.drop_last());
        let prev = cleaned_words(ws.drop_last());
        assert forall|k: int| 0 <= k < cleaned_words(ws).len() implies (#[trigger] cleaned_words(ws)[k]).len() > 0 by {
            if k < prev.len() {
                assert(cleaned_words(ws)[k] == prev[k]);
            }
        }
    }
}

/// Patterns with their words trimmed and in upper case, empty words and empty patterns
/// dropped.
pub fn normalize_patterns(input: Vec<Vec<String>>) -> (r: Vec<Vec<String>>)
    ensures
        patterns_view(r@) == normalized_patterns(patterns_view(input@)),
{
    let ghost iv = patterns_view(input@);
    let mut out: Vec<Vec<String>> = Vec::new();
    let mut i: usize = 0;
    while i < input.len()
        invariant
            i <= input.len(),
            iv == patterns_view(input@),
            patterns_view(out@) == normalized_patterns(iv.take(i as int)),
        decreases input.len() - i,
    {
        let normalized = clean_words(&input[i]);
        proof {
            assert(iv.take(i + 1).drop_last() =~= iv.take(i as int));
            assert(iv.take(i + 1).last() == texts_view(input@[i as int]@));
        }
        if normalized.len() > 0 {
            let ghost before = patterns_view(out@);
            let ghost nv = texts_view(normalized@);
            out.push(normalized);
            proof {
                assert(patterns_view(out@) =~= before.push(nv));
            }
        }
        i = i + 1;
    }
    proof {
        assert(iv.take(input.len() as int) =~= iv);
    }
    out
}

/// At most the first three of the words.
pub open spec fn first_three(ws: Seq<Seq<char>>) -> Seq<Seq<char>> {
    if ws.len() <= 3 {
        ws
    } else {
        ws.take(3)
    }
}

/// No keyword and no pattern of the suggestion is empty.
pub open spec fn no_empty_suggestion(c: AiClassification) -> bool {
    &&& forall|k: int|
        0 <= k < c.lexicon_suggestion.keywords@.len() ==> (#[trigger] c.lexicon_suggestion.keywords@[k])@.len() > 0
    &&& forall|k: int|
        0 <= k < c.lexicon_suggestion.patterns@.len() ==> (#[trigger] c.lexicon_suggestion.patterns@[k])@.len() > 0
}

/// Some character of the text is an ASCII letter or digit.
pub open spec fn has_ascii_alnum(s: Seq<char>) -> bool {
    exists|i: int| 0 <= i < s.len() && (is_ascii_alpha(#[trigger] s[i]) || is_ascii_digit(s[i]))
}

/// Every pattern kept by the cleaning has a word.
proof fn lemma_normalized_patterns_nonempty(ps: Seq<Seq<Seq<char>>>)
    ensures
        forall|k: int| 0 <= k < normalized_patterns(ps).len() ==> (#[trigger] normalized_patterns(ps)[k]).len() > 0,
    decreases ps.len(),
{
    if ps.len() > 0 {
        lemma_normalized_patterns_nonempty(ps.drop_last());
        let prev = normalized_patterns(ps.drop_last());
        if cleaned_words(ps.last()).len() != 0 {
            assert forall|k: int| 0 <= k < prev.len() + 1 implies (#[trigger] prev.push(cleaned_words(ps.last()))[k]).len() > 0 by {
                if k < prev.len() {
                    assert(prev.push(cleaned_words(ps.last()))[k] == prev[k]);
                }
            }
        }
    }
}

/// Upper-casing keeps an ASCII letter or digit one.
proof fn lemma_upper_keeps_ascii_alnum(s: Seq<char>)
    requires
        has_ascii_alnum(s),
    ensures
        has_ascii_alnum(ascii_upper(s)),
{
    let i = choose|i: int| 0 <= i < s.len() && (is_ascii_alpha(#[trigger] s[i]) || is_ascii_digit(s[i]));
    let c = s[i];
    assert(ascii_upper(s)[i] == upper_char(c));
    if 'a' <= c <= 'z' {
        assert((((c as u32) - 32) as char) as u32 == (c as u32) - 32);
    }
    assert(is_ascii_alpha(ascii_upper(s)[i]) || is_ascii_digit(ascii_upper(s)[i]));
}

/// The maximal alphanumeric runs of a text, in order; there is at least one when the text
/// has an ASCII letter or digit.
fn alnum_tokens(s: &Vec<char>) -> (r: Vec<String>)
    ensures
        texts_view(r@) == alnum_words(s@),
        has_ascii_alnum(s@) ==> r@.len() > 0,
{
    let mut out: Vec<String> = Vec::new();
    let mut cur: Vec<char> = Vec::new();
    let ghost mut done: Seq<Seq<char>> = Seq::empty();
    let mut i: usize = 0;
    while i < s.len()
        invariant
            i <= s.len(),
            split_state(s@, i as int) == (done, cur@),
            texts_view(out@) == done,
            has_ascii_alnum(s@.take(i as int)) ==> out@.len() + cur@.len() > 0,
        decreases s.len() - i,
    {
        let c = s[i];
        proof {
            if has_ascii_alnum(s@.take(i + 1)) && !has_ascii_alnum(s@.take(i as int)) {
                let j = choose|j: int| 0 <= j < i + 1 && (is_ascii_alpha(#[trigger] s@.take(i + 1)[j]) || is_ascii_digit(s@.take(i + 1)[j]));
                if j < i {
                    assert(s@.take(i as int)[j] == s@[j]);
                }
            }
        }
        if is_alphanumeric(c) {
            cur.push(c);
        } else if cur.len() > 0 {
            let w = string_of(&cur);
            out.push(w);
            proof {
                done = done.push(cur@);
                assert(texts_view(out@) =~= done);
            }
            cur = Vec::new();
        } else {
            cur = Vec::new();
        }
        proof {
            assert(cur@ == split_state(s@, i + 1).1);
        }
        i = i + 1;
    }
    proof {
        assert(s@.take(s@.len() as int) =~= s@);
    }
    if cur.len() > 0 {
        let w = string_of(&cur);
        out.push(w);
        proof {
            done = done.push(cur@);
            assert(texts_view(out@) =~= done);
        }
    }
    out
}

pub open spec fn texts_or_empty(o: Option<Vec<String>>) -> Seq<Seq<char>> {
    match o {
        Some(v) => texts_view(v@),
        None => Seq::empty(),
    }
}

pub open spec fn patterns_or_empty(o: Option<Vec<Vec<String>>>) -> Seq<Seq<Seq<char>>> {
    match o {
        Some(v) => patterns_view(v@),
        None => Seq::empty(),
    }
}

/// What a validated answer holds: the role; the confidence (60 when missing, at most 100);
/// the reason (a default when missing); and a suggestion filed under the role's category
/// whose keywords are the cleaned ones (else the narration in upper case) and whose
/// patterns are the cleaned ones (else the first three words of the narration in upper
/// case).
pub open spec fn classification_holds(c: AiClassification, role: TransactionRole, narration: Seq<char>, out: GeminiOutput) -> bool {
    let confidence: int = match out.confidence {
        Some(x) => x as int,
        None => 60,
    };
    let keywords = normalized_keywords(texts_or_empty(out.keywords));
    let patterns = normalized_patterns(patterns_or_empty(out.patterns));
    &&& c.role == role
    &&& c.confidence == (if confidence <= 100 { confidence } else { 100 })
    &&& c.reason@ == (match out.reason {
        Some(t) => t@,
        None => "gemini classification"@,
    })
    &&& c.lexicon_suggestion.category@ == category_of(role)
    &&& texts_view(c.lexicon_suggestion.keywords@) == (if keywords.len() == 0 {
        seq![unicode_upper(narration)]
    } else {
        keywords
    })
    &&& patterns_view(c.lexicon_suggestion.patterns@) == (if patterns.len() == 0 {
        seq![first_three(alnum_words(unicode_upper(narration)))]
    } else {
        patterns
    })
}

/// Validates the model's answer for a narration: an unsupported role is an error;
/// otherwise the classification with its lexicon suggestion.
pub fn classification_from_output(narration: &str, output: GeminiOutput) -> (r: Result<AiClassification, AiClassifierError>)
    ensures
        match role_named(unicode_upper(trim(output.role@))) {
            Some(role) => r matches Ok(c) && classification_holds(c, role, narration@, output),
            None => r matches Err(AiClassifierError::UnsupportedRole(t)) && t@ == unicode_upper(trim(output.role@)),
        },
        r matches Ok(c) ==> c.confidence <= 100 && c.lexicon_suggestion.keywords@.len() > 0
            && c.lexicon_suggestion.patterns@.len() > 0,
        all_ascii(narration@) && has_ascii_alnum(narration@) ==> (r matches Ok(c) ==> no_empty_suggestion(c)),
{
    let role = match parse_role(output.role.as_str()) {
        Ok(role) => role,
        Err(e) => {
            return Err(e);
        },
    };
    let confidence = match output.confidence {
        Some(x) => if x <= 100 { x } else { 100 },
        None => 60,
    };
    let reason = match &output.reason {
        Some(t) => t.clone(),
        None => String::from_str("gemini classification"),
    };
    let raw_keywords: Vec<String> = match &output.keywords {
        Some(v) => copy_words(v),
        None => Vec::new(),
    };
    let raw_patterns: Vec<Vec<String>> = match &output.patterns {
        Some(v) => copy_patterns(v),
        None => Vec::new(),
    };
    proof {
        assert(texts_view(raw_keywords@) =~= texts_or_empty(output.keywords));
        assert(patterns_view(raw_patterns@) =~= patterns_or_empty(output.patterns));
    }
    let mut keywords = normalize_keywords(raw_keywords);
    let mut patterns = normalize_patterns(raw_patterns);
    let upper = to_uppercase(narration);
    let ghost readable = all_ascii(narration@) && has_ascii_alnum(narration@);
    proof {
        lemma_normalized_patterns_nonempty(patterns_or_empty(output.patterns));
        assert(forall|k: int| 0 <= k < patterns@.len() ==> (#[trigger] patterns@[k])@.len() == patterns_view(patterns@)[k].len());
        if readable {
            lemma_upper_keeps_ascii_alnum(narration@);
        }
    }
    if keywords.len() == 0 {
        keywords.push(upper.clone());
        proof {
            assert(texts_view(keywords@) =~= seq![unicode_upper(narration@)]);
            if readable {
                assert(keywords@[0]@ == ascii_upper(narration@));
                let i = choose|i: int| 0 <= i < narration@.len() && (is_ascii_alpha(#[trigger] narration@[i]) || is_ascii_digit(narration@[i]));
            }
        }
    }
    if patterns.len() == 0 {
        let words = alnum_tokens(&chars_of(upper.as_str()));
        let mut first: Vec<String> = Vec::new();
        let mut i: usize = 0;
        while i < words.len() && i < 3
            invariant
                i <= words.len(),
                i <= 3,
                first@ == words@.take(i as int),
            decreases 3 - i,
        {
            first.push(words[i].clone());
            proof {
                assert(words@.take(i + 1) =~= words@.take(i as int).push(words@[i as int]));
            }
            i = i + 1;
        }
        proof {
            assert(texts_view(first@) =~= first_three(texts_view(words@)));
        }
        patterns.push(first);
        proof {
            assert(patterns_view(patterns@) =~= seq![first_three(alnum_words(unicode_upper(narration@)))]);
        }
    }
    let category = String::from_str(role_to_lexicon_category(role));
    Ok(AiClassification {
        role,
        confidence,
        reason,
        lexicon_suggestion: AiLexiconSuggestion { category, keywords, patterns },
    })
}

fn copy_words(v: &Vec<String>) -> (r: Vec<String>)
    ensures
        r@ == v@,
{
    let mut out: Vec<String> = Vec::new();
    let mut i: usize = 0;
    while i < v.len()
        invariant
            i <= v.len(),
            out@ == v@.take(i as int),
        decreases v.len() - i,
    {
        out.push(v[i].clone());
        proof {
            assert(v@.take(i + 1) =~= v@.take(i as int).push(v@[i as int]));
        }
        i = i + 1;
    }
    proof {
        assert(v@.take(v.len() as int) =~= v@);
    }
    out
}

fn copy_patterns(v: &Vec<Vec<String>>) -> (r: Vec<Vec<String>>)
    ensures
        patterns_view(r@) == patterns_view(v@),
{
    let mut out: Vec<Vec<String>> = Vec::new();
    let mut i: usize = 0;
    while i < v.len()
        invariant
            i <= v.len(),
            patterns_view(out@) == patterns_view(v@.take(i as int)),
        decreases v.len() - i,
    {
        out.push(copy_words(&v[i]));
        proof {
            assert(patterns_view(v@.take(i + 1)) =~= patterns_view(v@.take(i as int)).push(texts_view(v@[i as int]@)));
            assert(patterns_view(out@) =~= patterns_view(v@.take(i + 1)));
        }
        i = i + 1;
    }
    proof {
        assert(v@.take(v.len() as int) =~= v@);
    }
    out
}

} // verus!
