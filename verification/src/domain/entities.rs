//! The values that flow through the engine: parsed statement rows, categorised
//! transactions, per-user tax state and calculation results.

use vstd::prelude::*;
use crate::money::{Amount, DecimalView, zero_view};
use crate::text::texts_view;

verus! {

/// Lexicon contents: for each category, its sub-categories and their rules, in the
/// order in which the store or the JSON file handed them over.
#[derive(Debug, Clone)]
pub struct LexiconFile {
    pub categories: Vec<(String, Vec<(String, CategoryRule)>)>,
}

/// One sub-category of the lexicon: single keywords and multi-word patterns.
#[derive(Debug, Clone)]
pub struct CategoryRule {
    pub role: Option<TransactionRole>,
    pub keywords: Vec<String>,
    pub patterns: Vec<Vec<String>>,
}

/// What a sub-category rule holds, as texts.
pub struct RuleView {
    pub role: Option<TransactionRole>,
    pub keywords: Seq<Seq<char>>,
    pub patterns: Seq<Seq<Seq<char>>>,
}

impl CategoryRule {
    pub open spec fn view_of(self) -> RuleView {
        RuleView {
            role: self.role,
            keywords: texts_view(self.keywords@),
            patterns: self.patterns@.map_values(|p: Vec<String>| texts_view(p@)),
        }
    }
}

impl LexiconFile {
    /// Each category's name with its sub-categories' names and rules.
    pub open spec fn view_of(self) -> Seq<(Seq<char>, Seq<(Seq<char>, RuleView)>)> {
        categories_view(self.categories@)
    }
}

/// Each category's name with its sub-categories' names and rules.
pub open spec fn categories_view(v: Seq<(String, Vec<(String, CategoryRule)>)>) -> Seq<(Seq<char>, Seq<(Seq<char>, RuleView)>)> {
    v.map_values(|c: (String, Vec<(String, CategoryRule)>)| (c.0@, subs_view(c.1@)))
}

/// Each sub-category's name with its rule.
pub open spec fn subs_view(v: Seq<(String, CategoryRule)>) -> Seq<(Seq<char>, RuleView)> {
    v.map_values(|e: (String, CategoryRule)| (e.0@, e.1.view_of()))
}

/// A statement row after the PDF text has been reconstructed.
#[derive(Debug, Clone)]
pub struct RawStatement {
    pub date: String,
    pub narration: String,
    pub amount: Amount,
    pub counterparty: Option<String>,
}

/// What a statement row holds, as texts and a decimal.
pub struct StatementView {
    pub date: Seq<char>,
    pub narration: Seq<char>,
    pub amount: DecimalView,
    pub counterparty: Option<Seq<char>>,
}

impl RawStatement {
    pub open spec fn view_of(self) -> StatementView {
        StatementView {
            date: self.date@,
            narration: self.narration@,
            amount: self.amount@,
            counterparty: match self.counterparty {
                Some(c) => Some(c@),
                None => None,
            },
        }
    }
}

/// A statement row after categorisation.
#[derive(Debug, Clone)]
pub struct ParsedTransaction {
    pub amount: Amount,
    pub narration: String,
    pub role: TransactionRole,
    pub confidence: u32,
    pub charges: Amount,
    pub date: String,
}

impl ParsedTransaction {
    /// A copy with the same fields.
    pub fn duplicate(&self) -> (r: ParsedTransaction)
        ensures
            r == *self,
    {
        ParsedTransaction {
            amount: self.amount,
            narration: self.narration.clone(),
            role: self.role,
            confidence: self.confidence,
            charges: self.charges,
            date: self.date.clone(),
        }
    }
}

/// The outcome of running one statement through the calculator.
#[derive(Debug)]
pub struct CalculationResult {
    /// Change in taxable income caused by this statement.
    pub taxable_income_delta: Amount,
    pub annual_taxable_income: Amount,
    pub tax_payable_ytd: Amount,
    pub tax_delta: Amount,
    pub development_levy_ytd: Amount,
    pub development_levy_delta: Amount,
    /// Sum of the inflows seen.
    pub total_credit_flow: Amount,
    /// False when more than 30% of the transactions are unknown.
    pub is_valid_for_use: bool,
    pub unknown_transactions: Vec<ParsedTransaction>,
}

/// The two kinds of tax payer.
#[derive(Debug, Clone, Copy, PartialEq, Eq, Structural)]
pub enum TaxEntity {
    PIT,
    LLC,
}

/// What a transaction means for tax purposes.
#[derive(Debug, Clone, Copy, PartialEq, Eq, Structural)]
pub enum TransactionRole {
    Income,
    BusinessExp,
    Salary,
    TaxExempt,
    Utilities,
    Rent,
    Relief,
    Deduction,
    PersonalExp,
    PassThrough,
    Unknown,
}

/// Year-to-date tracker of a personal income tax payer.
#[derive(Debug, Clone)]
pub struct PitTaxState {
    pub user_id: String,
    pub tax_year: u32,
    pub taxable_income_ytd: Amount,
    pub rent_relief_used_ytd: Amount,
    pub pension_deduction_ytd: Amount,
    pub nhis_deduction_ytd: Amount,
    pub nhf_deduction_ytd: Amount,
    pub life_insurance_ytd: Amount,
}

/// Year-to-date tracker of a company.
#[derive(Debug, Clone)]
pub struct LLCTaxState {
    pub user_id: String,
    pub tax_year: u32,
    pub taxable_income_ytd: Amount,
    pub business_expenses_ytd: Amount,
    pub development_levy_ytd: Amount,
    pub gross_turnover_ytd: Amount,
    pub fixed_assets_value: Amount,
}

#[derive(Debug, Clone)]
pub enum UserTaxState {
    PIT(PitTaxState),
    LLC(LLCTaxState),
}

impl LLCTaxState {
    pub fn new(user_id: String, tax_year: u32) -> (r: Self)
        ensures
            r.user_id == user_id,
            r.tax_year == tax_year,
            r.taxable_income_ytd@ == zero_view(),
            r.business_expenses_ytd@ == zero_view(),
            r.development_levy_ytd@ == zero_view(),
            r.gross_turnover_ytd@ == zero_view(),
            r.fixed_assets_value@ == zero_view(),
    {
        LLCTaxState {
            user_id,
            tax_year,
            taxable_income_ytd: Amount::zero(),
            business_expenses_ytd: Amount::zero(),
            development_levy_ytd: Amount::zero(),
            gross_turnover_ytd: Amount::zero(),
            fixed_assets_value: Amount::zero(),
        }
    }
}

impl PitTaxState {
    pub fn new(user_id: String, tax_year: u32) -> (r: Self)
        ensures
            r.user_id == user_id,
            r.tax_year == tax_year,
            r.taxable_income_ytd@ == zero_view(),
            r.rent_relief_used_ytd@ == zero_view(),
            r.pension_deduction_ytd@ == zero_view(),
            r.nhis_deduction_ytd@ == zero_view(),
            r.nhf_deduction_ytd@ == zero_view(),
            r.life_insurance_ytd@ == zero_view(),
    {
        PitTaxState {
            user_id,
            tax_year,
            taxable_income_ytd: Amount::zero(),
            rent_relief_used_ytd: Amount::zero(),
            pension_deduction_ytd: Amount::zero(),
            nhis_deduction_ytd: Amount::zero(),
            nhf_deduction_ytd: Amount::zero(),
            life_insurance_ytd: Amount::zero(),
        }
    }
}

/// A registered user, as the tokens carry it.
#[derive(Debug, Clone)]
pub struct User {
    pub id: String,
    pub email: String,
    pub entity_type: String,
    pub role: String,
}

/// What an access token carries.
#[derive(Debug, Clone)]
pub struct AccessTokenPayload {
    pub id: String,
    pub email: String,
    pub entity_type: String,
    pub role: String,
    pub exp: usize,
    pub iat: usize,
    pub iss: String,
}

/// What a refresh token carries.
#[derive(Debug, Clone)]
pub struct RefreshTokenPayload {
    pub id: String,
    pub role: String,
    pub exp: usize,
    pub iat: usize,
    pub iss: String,
}

/// Why an uploaded PDF cannot be used.
#[derive(Debug, Clone, PartialEq, Eq)]
pub enum CheckError {
    /// The bytes are not a PDF that can be loaded (or saved again); the reason given.
    CorruptedPdf(String),
    /// The password does not open the document.
    WrongPassword,
}

/// An uploaded PDF that loads, with its bytes: locked behind a password or not.
#[derive(Debug, Clone, PartialEq, Eq)]
pub enum CheckerResult {
    LockedPdf(Vec<u8>),
    UnlockedPdf(Vec<u8>),
}

/// Failures of the PDF statement parser.
#[derive(Debug, Clone, Copy, PartialEq, Eq, Structural)]
pub enum ParserError {
    FileError,
    UnknownFormat,
}

pub open spec fn parser_error_message(e: ParserError) -> Seq<char> {
    match e {
        ParserError::FileError => "failed ot read the pdf "@,
        ParserError::UnknownFormat => "this pdf formart is not recognized"@,
    }
}

impl ParserError {
    /// The error's message.
    pub fn message(&self) -> (r: String)
        ensures
            r@ == parser_error_message(*self),
    {
        match self {
            ParserError::FileError => String::from_str("failed ot read the pdf "),
            ParserError::UnknownFormat => String::from_str("this pdf formart is not recognized"),
        }
    }
}

} // verus!
