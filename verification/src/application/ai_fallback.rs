//! The decisions around the AI fallback: when the model is consulted, how its answer
//! replaces the rules' verdict, and which lexicon rule is learned from it.

use vstd::prelude::*;
use crate::domain::entities::{ParsedTransaction, RawStatement, TaxEntity, TransactionRole};
use crate::domain::services::categorizer::{TransactionCategorizer, analysis_of, charge_of};
use crate::domain::services::gemini_classifier::{AiClassification, AiLexiconSuggestion};
use crate::text::texts_view;

verus! {

/// A categorised transaction and the model's answer when it was consulted.
#[derive(Debug)]
pub struct AiFallbackResult {
    pub transaction: ParsedTransaction,
    pub ai: Option<AiClassification>,
}

/// What to do after the rules have looked at a transaction.
#[derive(Debug)]
pub enum FallbackStep {
    /// The rules know the role: this is the result.
    Done(AiFallbackResult),
    /// The role is unknown: the model is to be asked about this transaction.
    AskModel(ParsedTransaction),
}

/// A rule learned from the model, to be written to the lexicon.
#[derive(Debug)]
pub struct LexiconLesson {
    pub category: String,
    pub sub_category: String,
    pub role: TransactionRole,
    pub keywords: Vec<String>,
    pub patterns: Vec<Vec<String>>,
    pub confidence: u32,
}

/// The copy of the suggestion that is written to the lexicon: category, keywords,
/// patterns.
pub fn suggestion_to_lexicon_entry(suggestion: &AiLexiconSuggestion) -> (r: (String, Vec<String>, Vec<Vec<String>>))
    ensures
        r.0@ == suggestion.category@,
        texts_view(r.1@) == texts_view(suggestion.keywords@),
        r.2@.map_values(|p: Vec<String>| texts_view(p@)) == suggestion.patterns@.map_values(|p: Vec<String>| texts_view(p@)),
{
    let mut keywords: Vec<String> = Vec::new();
    let mut i: usize = 0;
    while i < suggestion.keywords.len()
        invariant
            i <= suggestion.keywords.len(),
            keywords@ == suggestion.keywords@.take(i as int),
        decreases suggestion.keywords.len() - i,
    {
        keywords.push(suggestion.keywords[i].clone());
        proof {
            assert(suggestion.keywords@.take(i + 1) =~= suggestion.keywords@.take(i as int).push(suggestion.keywords@[i as int]));
        }
        i = i + 1;
    }
    proof {
        assert(suggestion.keywords@.take(suggestion.keywords.len() as int) =~= suggestion.keywords@);
    }
    let mut patterns: Vec<Vec<String>> = Vec::new();
    let mut j: usize = 0;
    while j < suggestion.patterns.len()
        invariant
            j <= suggestion.patterns.len(),
            patterns@.map_values(|p: Vec<String>| texts_view(p@))
                == suggestion.patterns@.take(j as int).map_values(|p: Vec<String>| texts_view(p@)),
        decreases suggestion.patterns.len() - j,
    {
        let src = &suggestion.patterns[j];
        let mut copy: Vec<String> = Vec::new();
        let mut k: usize = 0;
        while k < src.len()
            invariant
                k <= src.len(),
                copy@ == src@.take(k as int),
            decreases src.len() - k,
        {
            copy.push(src[k].clone());
            proof {
                assert(src@.take(k + 1) =~= src@.take(k as int).push(src@[k as int]));
            }
            k = k + 1;
        }
        proof {
            assert(src@.take(src.len() as int) =~= src@);
        }
        let ghost before = patterns@.map_values(|p: Vec<String>| texts_view(p@));
        patterns.push(copy);
        proof {
            assert(patterns@.map_values(|p: Vec<String>| texts_view(p@)) =~= before.push(texts_view(src@)));
            assert(suggestion.patterns@.take(j + 1).map_values(|p: Vec<String>| texts_view(p@))
                =~= suggestion.patterns@.take(j as int).map_values(|p: Vec<String>| texts_view(p@)).push(texts_view(src@)));
        }
        j = j + 1;
    }
    proof {
        assert(suggestion.patterns@.take(suggestion.patterns.len() as int) =~= suggestion.patterns@);
    }
    (suggestion.category.clone(), keywords, patterns)
}

/// The sub-category that rules learned for a role are grouped under.
pub open spec fn learned_sub_category_of(role: TransactionRole) -> Seq<char> {
    match role {
        TransactionRole::Income => "AI_INCOME"@,
        TransactionRole::BusinessExp => "AI_BUSINESS_EXP"@,
        TransactionRole::Salary => "AI_SALARY"@,
        TransactionRole::TaxExempt => "AI_TAX_EXEMPT"@,
        TransactionRole::Utilities => "AI_UTILITIES"@,
        TransactionRole::Rent => "AI_RENT"@,
        TransactionRole::Relief => "AI_RELIEF"@,
        TransactionRole::Deduction => "AI_DEDUCTION"@,
        TransactionRole::PersonalExp => "AI_PERSONAL_EXP"@,
        TransactionRole::Unknown => "AI_UNKNOWN"@,
        TransactionRole::PassThrough => "AI_PASS_THROUGH"@,
    }
}

/// Rules learned for different roles are kept under different sub-categories, so that
/// repeated lessons for one role merge and lessons for two roles never do.
pub proof fn lemma_learned_sub_categories_distinct(a: TransactionRole, b: TransactionRole)
    ensures
        (learned_sub_category_of(a) == learned_sub_category_of(b)) == (a == b),
{
    reveal_strlit("AI_INCOME");
    reveal_strlit("AI_BUSINESS_EXP");
    reveal_strlit("AI_SALARY");
    reveal_strlit("AI_TAX_EXEMPT");
    reveal_strlit("AI_UTILITIES");
    reveal_strlit("AI_RENT");
    reveal_strlit("AI_RELIEF");
    reveal_strlit("AI_DEDUCTION");
    reveal_strlit("AI_PERSONAL_EXP");
    reveal_strlit("AI_UNKNOWN");
    reveal_strlit("AI_PASS_THROUGH");
    assert("AI_INCOME"@.len() == 9 && "AI_INCOME"@[3] == 'I' && "AI_INCOME"@[4] == 'N');
    assert("AI_BUSINESS_EXP"@.len() == 15 && "AI_BUSINESS_EXP"@[3] == 'B' && "AI_BUSINESS_EXP"@[4] == 'U');
    assert("AI_SALARY"@.len() == 9 && "AI_SALARY"@[3] == 'S' && "AI_SALARY"@[4] == 'A');
    assert("AI_TAX_EXEMPT"@.len() == 13 && "AI_TAX_EXEMPT"@[3] == 'T' && "AI_TAX_EXEMPT"@[4] == 'A');
    assert("AI_UTILITIES"@.len() == 12 && "AI_UTILITIES"@[3] == 'U' && "AI_UTILITIES"@[4] == 'T');
    assert("AI_RENT"@.len() == 7 && "AI_RENT"@[3] == 'R' && "AI_RENT"@[4] == 'E');
    assert("AI_RELIEF"@.len() == 9 && "AI_RELIEF"@[3] == 'R' && "AI_RELIEF"@[4] == 'E');
    assert("AI_DEDUCTION"@.len() == 12 && "AI_DEDUCTION"@[3] == 'D' && "AI_DEDUCTION"@[4] == 'E');
    assert("AI_PERSONAL_EXP"@.len() == 15 && "AI_PERSONAL_EXP"@[3] == 'P' && "AI_PERSONAL_EXP"@[4] == 'E');
    assert("AI_UNKNOWN"@.len() == 10 && "AI_UNKNOWN"@[3] == 'U' && "AI_UNKNOWN"@[4] == 'N');
    assert("AI_PASS_THROUGH"@.len() == 15 && "AI_PASS_THROUGH"@[3] == 'P' && "AI_PASS_THROUGH"@[4] == 'A');
}

pub fn learned_sub_category(role: TransactionRole) -> (r: String)
    ensures
        r@ == learned_sub_category_of(role),
{
    match role {
        TransactionRole::Income => String::from_str("AI_INCOME"),
        TransactionRole::BusinessExp => String::from_str("AI_BUSINESS_EXP"),
        TransactionRole::Salary => String::from_str("AI_SALARY"),
        TransactionRole::TaxExempt => String::from_str("AI_TAX_EXEMPT"),
        TransactionRole::Utilities => String::from_str("AI_UTILITIES"),
        TransactionRole::Rent => String::from_str("AI_RENT"),
        TransactionRole::Relief => String::from_str("AI_RELIEF"),
        TransactionRole::Deduction => String::from_str("AI_DEDUCTION"),
        TransactionRole::PersonalExp => String::from_str("AI_PERSONAL_EXP"),
        TransactionRole::Unknown => String::from_str("AI_UNKNOWN"),
        TransactionRole::PassThrough => String::from_str("AI_PASS_THROUGH"),
    }
}

/// The rules' pass over a transaction: a known role is final; an unknown one is handed
/// to the model.
pub fn start_fallback(categorizer: &TransactionCategorizer, raw: RawStatement, user_type: TaxEntity) -> (r: FallbackStep)
    ensures
        match r {
            FallbackStep::Done(res) => {
                &&& res.ai is None
                &&& res.transaction.role != TransactionRole::Unknown
                &&& res.transaction.amount == raw.amount
                &&& res.transaction.narration == raw.narration
                &&& res.transaction.date == raw.date
                &&& res.transaction.charges@ == charge_of(raw.narration@)
                &&& (res.transaction.role, res.transaction.confidence) == analysis_of(*categorizer, raw.narration@, raw.amount@, user_type)
            },
            FallbackStep::AskModel(p) => {
                &&& p.role == TransactionRole::Unknown
                &&& p.amount == raw.amount
                &&& p.narration == raw.narration
                &&& p.date == raw.date
                &&& p.charges@ == charge_of(raw.narration@)
                &&& (p.role, p.confidence) == analysis_of(*categorizer, raw.narration@, raw.amount@, user_type)
            },
        },
{
    let parsed = categorizer.analyze_raw_statment(raw, user_type);
    if parsed.role != TransactionRole::Unknown {
        FallbackStep::Done(AiFallbackResult { transaction: parsed, ai: None })
    } else {
        FallbackStep::AskModel(parsed)
    }
}

/// The model's answer replaces the role and confidence; everything else of the
/// transaction stays.
pub fn finish_fallback(parsed: ParsedTransaction, ai: AiClassification) -> (r: AiFallbackResult)
    ensures
        r.transaction == (ParsedTransaction { role: ai.role, confidence: ai.confidence, ..parsed }),
        r.ai == Some(ai),
{
    let transaction = ParsedTransaction { role: ai.role, confidence: ai.confidence, ..parsed };
    AiFallbackResult { transaction, ai: Some(ai) }
}

/// The rule to learn from the model's answer: none when it could not tell the role
/// either; otherwise its suggestion under the role's learned sub-category, with its
/// confidence.
pub fn lexicon_lesson(ai: &AiClassification) -> (r: Option<LexiconLesson>)
    ensures
        ai.role == TransactionRole::Unknown <==> r is None,
        r matches Some(l) ==> {
            &&& l.category@ == ai.lexicon_suggestion.category@
            &&& l.sub_category@ == learned_sub_category_of(ai.role)
            &&& l.role == ai.role
            &&& texts_view(l.keywords@) == texts_view(ai.lexicon_suggestion.keywords@)
            &&& l.patterns@.map_values(|p: Vec<String>| texts_view(p@))
                == ai.lexicon_suggestion.patterns@.map_values(|p: Vec<String>| texts_view(p@))
            &&& l.confidence == ai.confidence
        },
{
    if ai.role == TransactionRole::Unknown {
        return None;
    }
    let (category, keywords, patterns) = suggestion_to_lexicon_entry(&ai.lexicon_suggestion);
    let sub_category = learned_sub_category(ai.role);
    Some(LexiconLesson { category, sub_category, role: ai.role, keywords, patterns, confidence: ai.confidence })
}

} // verus!
