//! Statement ingestion: a PDF is parsed into rows, the rows are categorised, and the
//! calculator reports on the statement (and, when finalising, moves the tax state on).

use vstd::prelude::*;
use crate::domain::entities::{
    CalculationResult, ParsedTransaction, StatementView, TaxEntity, UserTaxState, parser_error_message,
    ParserError, PitTaxState, LLCTaxState,
};
use crate::domain::services::categorizer::{TransactionCategorizer, analysis_of, charge_of};
use crate::domain::services::tax_calculator::{
    TaxCalculator, delta_and_credit, fits_in_naira, fits_statement_limit, reliable_share, state_after, unknowns,
    within_statement_limit,
};
use crate::infrastructure::pdf_parser::{PdfParserAdapter, extraction_view, pages_statements, statements_view};
use crate::money::Amount;

verus! {

/// A statement whose figures can be relied on.
#[derive(Debug)]
pub struct ValidStatement {
    pub statement_id: String,
    pub taxable_income_delta: Amount,
    pub total_credit_flow: Amount,
    pub unknown_transactions: Vec<ParsedTransaction>,
    pub unknown_count: usize,
}

/// A statement with more than 30% unknown transactions.
#[derive(Debug)]
pub struct InvalidStatement {
    pub statement_id: String,
    pub taxable_income_delta: Amount,
    pub total_credit_flow: Amount,
    pub unknown_transactions: Vec<ParsedTransaction>,
    pub unknown_count: usize,
}

#[derive(Debug)]
pub enum SingleStatmentResult {
    Valid(ValidStatement),
    Invalid(InvalidStatement),
}

/// The statements of one upload, sorted into usable and unusable ones, and the state
/// they lead to when finalising.
#[derive(Debug)]
pub struct BatchProcessed {
    pub batch_id: String,
    pub valid_statments: Vec<ValidStatement>,
    pub invalid_statements: Vec<InvalidStatement>,
    pub updated_user_state: Option<UserTaxState>,
}

/// Why a statement could not be processed.
#[allow(non_camel_case_types)]
#[derive(Debug, Clone, PartialEq, Eq)]
pub enum ProcessorError {
    /// The PDF could not be read as a statement; the parser's message.
    pdf_parsing_error(String),
    /// The statement and state together exceed 3 x 10^28 naira, the calculator's own
    /// bound, below which no decimal operation can overflow.
    StatementTooLarge,
}

/// Preview reports on a statement without moving the state; Final moves it.
#[derive(Debug, Clone, Copy, PartialEq, Eq, Structural)]
pub enum ProcessorMode {
    Preview,
    Final,
}

/// The statement is usable: at most 30% of its transactions are unknown.
pub open spec fn usable(statement: Seq<ParsedTransaction>) -> bool {
    reliable_share(unknowns(statement, statement.len()).len(), statement.len())
}

/// The fields of a statement summary are those of the calculator's report on it.
pub open spec fn summary_fields(
    id: String,
    delta: Amount,
    credit: Amount,
    unknown: Vec<ParsedTransaction>,
    count: usize,
    statement: Seq<ParsedTransaction>,
    state: UserTaxState,
    statement_id: Seq<char>,
) -> bool {
    &&& id@ == statement_id
    &&& delta@ == delta_and_credit(statement, state).0
    &&& credit@ == delta_and_credit(statement, state).1
    &&& unknown@ == unknowns(statement, statement.len())
    &&& count == unknowns(statement, statement.len()).len()
}

/// A summary of a statement: valid exactly when it is usable, with the report's figures.
pub open spec fn summary_holds(
    s: SingleStatmentResult,
    statement: Seq<ParsedTransaction>,
    state: UserTaxState,
    statement_id: Seq<char>,
) -> bool {
    match s {
        SingleStatmentResult::Valid(v) => usable(statement) && summary_fields(
            v.statement_id,
            v.taxable_income_delta,
            v.total_credit_flow,
            v.unknown_transactions,
            v.unknown_count,
            statement,
            state,
            statement_id,
        ),
        SingleStatmentResult::Invalid(v) => !usable(statement) && summary_fields(
            v.statement_id,
            v.taxable_income_delta,
            v.total_credit_flow,
            v.unknown_transactions,
            v.unknown_count,
            statement,
            state,
            statement_id,
        ),
    }
}

/// The outcome of a categorised statement: its summary, and the new state exactly when
/// it is usable and being finalised.
pub open spec fn outcome_holds(
    r: (SingleStatmentResult, Option<UserTaxState>),
    statement: Seq<ParsedTransaction>,
    state: UserTaxState,
    statement_id: Seq<char>,
    mode: ProcessorMode,
) -> bool {
    &&& summary_holds(r.0, statement, state, statement_id)
    &&& (r.1 is Some <==> (mode == ProcessorMode::Final && usable(statement)))
    &&& (r.1 matches Some(s) ==> state_after(statement, state, s))
}

/// `p` is what the categoriser makes of the statement row `row`.
pub open spec fn categorized_row(cat: TransactionCategorizer, row: StatementView, user_type: TaxEntity, p: ParsedTransaction) -> bool {
    &&& p.amount@ == row.amount
    &&& p.narration@ == row.narration
    &&& p.date@ == row.date
    &&& p.charges@ == charge_of(row.narration)
    &&& (p.role, p.confidence) == analysis_of(cat, row.narration, row.amount, user_type)
}

pub open spec fn categorized(cat: TransactionCategorizer, rows: Seq<StatementView>, user_type: TaxEntity, txns: Seq<ParsedTransaction>) -> bool {
    &&& txns.len() == rows.len()
    &&& forall|i: int| 0 <= i < txns.len() ==> categorized_row(cat, rows[i], user_type, #[trigger] txns[i])
}

/// What processing one PDF statement, given by the text of its pages, gives: the
/// parser's message when it cannot be read as a statement; otherwise, for the categorised
/// rows, the report (refused when the amounts exceed the calculator's range).
pub open spec fn statement_step(
    p: StatementProcessor,
    pdf: Option<Seq<Seq<char>>>,
    tax_type: TaxEntity,
    mode: ProcessorMode,
    state: UserTaxState,
    statement_id: Seq<char>,
    r: Result<(SingleStatmentResult, Option<UserTaxState>), ProcessorError>,
) -> bool {
    match pdf {
        None => r matches Err(ProcessorError::pdf_parsing_error(m)) && m@ == parser_error_message(ParserError::FileError),
        Some(pages) => if pages_statements(pages).len() == 0 {
            r matches Err(ProcessorError::pdf_parsing_error(m)) && m@ == parser_error_message(ParserError::UnknownFormat)
        } else {
            exists|txns: Seq<ParsedTransaction>|
                categorized(p.categorizer_spec(), pages_statements(pages), tax_type, txns) && match r {
                    Ok(out) => fits_in_naira(txns, state) && outcome_holds(out, txns, state, statement_id, mode),
                    Err(e) => e == ProcessorError::StatementTooLarge && !fits_in_naira(txns, state),
                }
        },
    }
}

/// The state after a statement: the new one when there is one.
pub open spec fn next_state(state: UserTaxState, update: Option<UserTaxState>) -> UserTaxState {
    match update {
        Some(s) => s,
        None => state,
    }
}

/// The first `n` statements of a batch were processed one after the other, each from
/// the state the previous one left, giving `outs`.
pub open spec fn batch_trace(
    p: StatementProcessor,
    pdfs: Seq<Option<Vec<String>>>,
    ids: Seq<String>,
    tax_type: TaxEntity,
    mode: ProcessorMode,
    outs: Seq<(SingleStatmentResult, Option<UserTaxState>)>,
    states: Seq<UserTaxState>,
) -> bool {
    &&& states.len() == outs.len() + 1
    &&& outs.len() <= pdfs.len()
    &&& outs.len() <= ids.len()
    &&& forall|i: int| #![trigger outs[i]] 0 <= i < outs.len() ==> {
        &&& statement_step(p, extraction_view(pdfs[i]), tax_type, mode, states[i], ids[i]@, Ok(outs[i]))
        &&& states[i + 1] == next_state(states[i], outs[i].1)
    }
}

/// The valid summaries among the outcomes, in order.
pub open spec fn valid_of(outs: Seq<(SingleStatmentResult, Option<UserTaxState>)>) -> Seq<ValidStatement>
    decreases outs.len(),
{
    if outs.len() == 0 {
        Seq::empty()
    } else {
        match outs.last().0 {
            SingleStatmentResult::Valid(v) => valid_of(outs.drop_last()).push(v),
            SingleStatmentResult::Invalid(_) => valid_of(outs.drop_last()),
        }
    }
}

/// The invalid summaries among the outcomes, in order.
pub open spec fn invalid_of(outs: Seq<(SingleStatmentResult, Option<UserTaxState>)>) -> Seq<InvalidStatement>
    decreases outs.len(),
{
    if outs.len() == 0 {
        Seq::empty()
    } else {
        match outs.last().0 {
            SingleStatmentResult::Invalid(v) => invalid_of(outs.drop_last()).push(v),
            SingleStatmentResult::Valid(_) => invalid_of(outs.drop_last()),
        }
    }
}

/// Every outcome is sorted into exactly one of the two lists.
pub proof fn lemma_sorted_outcomes(outs: Seq<(SingleStatmentResult, Option<UserTaxState>)>)
    ensures
        valid_of(outs).len() + invalid_of(outs).len() == outs.len(),
    decreases outs.len(),
{
    if outs.len() > 0 {
        lemma_sorted_outcomes(outs.drop_last());
    }
}

/// The summary of a calculator report.
fn summarize(result: CalculationResult, statement_id: String) -> (r: SingleStatmentResult)
    ensures
        match r {
            SingleStatmentResult::Valid(v) => result.is_valid_for_use && v.statement_id == statement_id
                && v.taxable_income_delta == result.taxable_income_delta && v.total_credit_flow == result.total_credit_flow
                && v.unknown_transactions == result.unknown_transactions && v.unknown_count == result.unknown_transactions@.len(),
            SingleStatmentResult::Invalid(v) => !result.is_valid_for_use && v.statement_id == statement_id
                && v.taxable_income_delta == result.taxable_income_delta && v.total_credit_flow == result.total_credit_flow
                && v.unknown_transactions == result.unknown_transactions && v.unknown_count == result.unknown_transactions@.len(),
        },
{
    let unknown_count = result.unknown_transactions.len();
    if result.is_valid_for_use {
        SingleStatmentResult::Valid(ValidStatement {
            statement_id,
            taxable_income_delta: result.taxable_income_delta,
            total_credit_flow: result.total_credit_flow,
            unknown_transactions: result.unknown_transactions,
            unknown_count,
        })
    } else {
        SingleStatmentResult::Invalid(InvalidStatement {
            statement_id,
            taxable_income_delta: result.taxable_income_delta,
            total_credit_flow: result.total_credit_flow,
            unknown_transactions: result.unknown_transactions,
            unknown_count,
        })
    }
}

fn copy_pages(pages: &Option<Vec<String>>) -> (r: Option<Vec<String>>)
    ensures
        extraction_view(r) == extraction_view(*pages),
{
    match pages {
        None => None,
        Some(v) => Some(copy_texts(v)),
    }
}

fn copy_texts(v: &Vec<String>) -> (r: Vec<String>)
    ensures
        r@ == v@,
{
    let mut out: Vec<String> = Vec::new();
    let mut i: usize = 0;
    while i < v.len()
        invariant
            i <= v.len(),
            out@ == v@.take(i as int),
        decreases v.len() - i,
    {
        out.push(v[i].clone());
        proof {
            assert(v@.take(i + 1) =~= v@.take(i as int).push(v@[i as int]));
        }
        i = i + 1;
    }
    proof {
        assert(v@.take(v.len() as int) =~= v@);
    }
    out
}

fn copy_state(s: &UserTaxState) -> (r: UserTaxState)
    ensures
        r == *s,
{
    match s {
        UserTaxState::PIT(p) => UserTaxState::PIT(PitTaxState {
            user_id: p.user_id.clone(),
            tax_year: p.tax_year,
            taxable_income_ytd: p.taxable_income_ytd,
            rent_relief_used_ytd: p.rent_relief_used_ytd,
            pension_deduction_ytd: p.pension_deduction_ytd,
            nhis_deduction_ytd: p.nhis_deduction_ytd,
            nhf_deduction_ytd: p.nhf_deduction_ytd,
            life_insurance_ytd: p.life_insurance_ytd,
        }),
        UserTaxState::LLC(l) => UserTaxState::LLC(LLCTaxState {
            user_id: l.user_id.clone(),
            tax_year: l.tax_year,
            taxable_income_ytd: l.taxable_income_ytd,
            business_expenses_ytd: l.business_expenses_ytd,
            development_levy_ytd: l.development_levy_ytd,
            gross_turnover_ytd: l.gross_turnover_ytd,
            fixed_assets_value: l.fixed_assets_value,
        }),
    }
}

/// Parses, categorises and reports on statements.
pub struct StatementProcessor {
    statment_parser: PdfParserAdapter,
    categorizer: TransactionCategorizer,
    statement_calculator: TaxCalculator,
}

impl StatementProcessor {
    pub closed spec fn categorizer_spec(&self) -> TransactionCategorizer {
        self.categorizer
    }

    pub fn new(pdf_parser: PdfParserAdapter, categorize: TransactionCategorizer, stat_calculator: TaxCalculator) -> (r: Self)
        ensures
            r.categorizer_spec() == categorize,
    {
        StatementProcessor { statment_parser: pdf_parser, categorizer: categorize, statement_calculator: stat_calculator }
    }

    /// Reports on categorised transactions: previewing leaves the state; finalising a
    /// usable statement gives the new state.
    pub fn process_transactions(
        &self,
        transactions: Vec<ParsedTransaction>,
        mode: ProcessorMode,
        user_state: &UserTaxState,
        statement_id: String,
    ) -> (r: (SingleStatmentResult, Option<UserTaxState>))
        requires
            within_statement_limit(transactions@, *user_state),
        ensures
            outcome_holds(r, transactions@, *user_state, statement_id@, mode),
    {
        match mode {
            ProcessorMode::Preview => {
                let result = self.statement_calculator.preview_calculation(transactions, user_state);
                let s = summarize(result, statement_id);
                (s, None)
            },
            ProcessorMode::Final => {
                let (result, state) = self.statement_calculator.finalize_calculation(transactions, user_state);
                let valid = result.is_valid_for_use;
                let s = summarize(result, statement_id);
                if valid {
                    (s, Some(state))
                } else {
                    (s, None)
                }
            },
        }
    }

    /// Parses a PDF statement from the text of its pages, categorises its rows and reports
    /// on it (see `process_transactions`). A PDF that cannot be parsed gives the parser's
    /// message; amounts beyond the calculator's range are refused.
    pub fn process_statement(
        &self,
        pdf_datas: Option<Vec<String>>,
        user_id: String,
        tax_type: TaxEntity,
        tax_year: u32,
        mode: ProcessorMode,
        user_uptodate_state: &UserTaxState,
        statement_id: String,
    ) -> (r: Result<(SingleStatmentResult, Option<UserTaxState>), ProcessorError>)
        ensures
            statement_step(*self, extraction_view(pdf_datas), tax_type, mode, *user_uptodate_state, statement_id@, r),
    {
        let rows = match self.statment_parser.parse_pdf(pdf_datas) {
            Ok(rows) => rows,
            Err(e) => {
                return Err(ProcessorError::pdf_parsing_error(e.message()));
            },
        };
        let ghost row_views = statements_view(rows@);
        let ghost raws = rows@;
        let transactions = self.categorizer.analyze_batch_parallel(rows, tax_type);
        proof {
            assert forall|i: int| 0 <= i < transactions@.len() implies categorized_row(
                self.categorizer,
                row_views[i],
                tax_type,
                #[trigger] transactions@[i],
            ) by {
                assert(row_views[i] == raws[i].view_of());
            }
            assert(categorized(self.categorizer_spec(), row_views, tax_type, transactions@));
        }
        if !fits_statement_limit(&transactions, user_uptodate_state) {
            return Err(ProcessorError::StatementTooLarge);
        }
        let out = self.process_transactions(transactions, mode, user_uptodate_state, statement_id);
        Ok(out)
    }

    /// Processes the statements of one upload in order, each from the state the previous
    /// one left, and sorts the summaries; the first statement that cannot be processed
    /// stops the batch with its error. The batch's state is reported when finalising.
    pub fn batch_statement_processor(
        &self,
        pdfs: Vec<Option<Vec<String>>>,
        user_id: String,
        tax_type: TaxEntity,
        tax_year: u32,
        mode: ProcessorMode,
        user_state: &UserTaxState,
        batch_id: String,
        statement_ids: Vec<String>,
    ) -> (r: Result<BatchProcessed, ProcessorError>)
        requires
            statement_ids@.len() == pdfs@.len(),
        ensures
            match r {
                Ok(b) => {
                    &&& b.batch_id == batch_id
                    &&& b.valid_statments@.len() + b.invalid_statements@.len() == pdfs@.len()
                    &&& exists|outs: Seq<(SingleStatmentResult, Option<UserTaxState>)>, states: Seq<UserTaxState>| {
                        &&& batch_trace(*self, pdfs@, statement_ids@, tax_type, mode, outs, states)
                        &&& outs.len() == pdfs@.len()
                        &&& states[0] == *user_state
                        &&& b.valid_statments@ == valid_of(outs)
                        &&& b.invalid_statements@ == invalid_of(outs)
                        &&& b.updated_user_state == (if mode == ProcessorMode::Final { Some(states.last()) } else { None })
                    }
                },
                Err(e) => exists|outs: Seq<(SingleStatmentResult, Option<UserTaxState>)>, states: Seq<UserTaxState>| {
                    &&& batch_trace(*self, pdfs@, statement_ids@, tax_type, mode, outs, states)
                    &&& outs.len() < pdfs@.len()
                    &&& states[0] == *user_state
                    &&& statement_step(
                        *self,
                        extraction_view(pdfs@[outs.len() as int]),
                        tax_type,
                        mode,
                        states.last(),
                        statement_ids@[outs.len() as int]@,
                        Err(e),
                    )
                },
            },
    {
        let mut valid_statement_container: Vec<ValidStatement> = Vec::new();
        let mut invalid_statement_container: Vec<InvalidStatement> = Vec::new();
        let mut updated_state = copy_state(user_state);
        let ghost mut outs: Seq<(SingleStatmentResult, Option<UserTaxState>)> = Seq::empty();
        let ghost mut states: Seq<UserTaxState> = seq![*user_state];
        let mut i: usize = 0;
        while i < pdfs.len()
            invariant
                i <= pdfs.len(),
                statement_ids@.len() == pdfs@.len(),
                outs.len() == i,
                batch_trace(*self, pdfs@, statement_ids@, tax_type, mode, outs, states),
                states[0] == *user_state,
                states.last() == updated_state,
                valid_statement_container@ == valid_of(outs),
                invalid_statement_container@ == invalid_of(outs),
            decreases pdfs.len() - i,
        {
            let pdf = copy_pages(&pdfs[i]);
            let id = statement_ids[i].clone();
            let ghost before = updated_state;
            let step = self.process_statement(
                pdf,
                user_id.clone(),
                tax_type,
                tax_year,
                mode,
                &updated_state,
                id,
            );
            let (statement, maybe_updated_state) = match step {
                Ok(out) => out,
                Err(e) => {
                    return Err(e);
                },
            };
            let ghost out = (statement, maybe_updated_state);
            match maybe_updated_state {
                Some(s) => {
                    updated_state = s;
                },
                None => {},
            }
            proof {
                let new_outs = outs.push(out);
                let new_states = states.push(updated_state);
                assert(new_outs.drop_last() =~= outs);
                assert forall|k: int| #![trigger new_outs[k]] 0 <= k < new_outs.len() implies {
                    &&& statement_step(*self, extraction_view(pdfs@[k]), tax_type, mode, new_states[k], statement_ids@[k]@, Ok(new_outs[k]))
                    &&& new_states[k + 1] == next_state(new_states[k], new_outs[k].1)
                } by {
                    if k < outs.len() {
                        assert(new_outs[k] == outs[k]);
                        assert(new_states[k] == states[k]);
                        assert(new_states[k + 1] == states[k + 1]);
                    } else {
                        assert(new_states[k] == before);
                    }
                }
                outs = new_outs;
                states = new_states;
            }
            match statement {
                SingleStatmentResult::Valid(v) => {
                    valid_statement_container.push(v);
                },
                SingleStatmentResult::Invalid(v) => {
                    invalid_statement_container.push(v);
                },
            }
            i = i + 1;
        }
        proof {
            lemma_sorted_outcomes(outs);
        }
        let there_is_state = match mode {
            ProcessorMode::Preview => None,
            ProcessorMode::Final => Some(updated_state),
        };
        Ok(BatchProcessed {
            batch_id,
            valid_statments: valid_statement_container,
            invalid_statements: invalid_statement_container,
            updated_user_state: there_is_state,
        })
    }
}

} // verus!
