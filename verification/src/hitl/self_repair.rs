//! Syntactic self-repair: a two-agent loop that diagnoses structural errors
//! of neural operators and proposes a corrective action, so that a query
//! need not be aborted.
//!
//! The diagnosing agent classifies the error message and explains its root cause;
//! the rewriter turns the diagnosis into a [`RepairAction`].

use vstd::prelude::*;

use crate::text::{
    chars_of, contains, contains_exec, decimal, decimal_chars, push_all, push_str, str_lowercase,
    string_of, text_eq, to_lowercase,
};

verus! {

/// How severe a diagnosed error is.
#[derive(Debug, Clone, Copy, PartialEq, Eq, Structural)]
pub enum DiagnosisSeverity {
    /// Can be patched automatically.
    Recoverable,
    /// Can continue with reduced accuracy or features.
    Degraded,
    /// Requires user intervention.
    Fatal,
}

impl DiagnosisSeverity {
    /// The displayed name.
    pub open spec fn label(self) -> Seq<char> {
        match self {
            DiagnosisSeverity::Recoverable => "RECOVERABLE"@,
            DiagnosisSeverity::Degraded => "DEGRADED"@,
            DiagnosisSeverity::Fatal => "FATAL"@,
        }
    }

    /// The displayed name.
    pub fn to_string(&self) -> (r: String)
        ensures
            r@ == self.label(),
    {
        let s = match self {
            DiagnosisSeverity::Recoverable => "RECOVERABLE",
            DiagnosisSeverity::Degraded => "DEGRADED",
            DiagnosisSeverity::Fatal => "FATAL",
        };
        string_of(&chars_of(s))
    }
}

/// A corrective action proposed by the rewriter.
#[derive(Debug, Clone)]
pub enum RepairAction {
    /// Swap to a different model variant.
    SwapModel {
        /// Name of the replacement model.
        replacement: String,
        /// Reason for the swap.
        reason: String,
    },
    /// Adjust the input schema (add/remove/rename columns).
    AdjustSchema {
        /// Description of the schema change.
        change: String,
    },
    /// Retry with modified parameters.
    RetryWithParams {
        /// Parameter adjustments.
        adjustments: String,
    },
    /// Skip the failing rows and continue with the rest.
    SkipAndContinue {
        /// Number of rows to skip.
        skip_count: usize,
        /// Reason for skipping.
        reason: String,
    },
    /// Escalate to the user: no self-repair possible.
    Escalate {
        /// Explanation for the user.
        explanation: String,
    },
}

/// An action as displayed.
pub open spec fn action_text(a: RepairAction) -> Seq<char> {
    match a {
        RepairAction::SwapModel { replacement, reason } => "SwapModel → "@ + replacement@ + ": "@
            + reason@,
        RepairAction::AdjustSchema { change } => "AdjustSchema: "@ + change@,
        RepairAction::RetryWithParams { adjustments } => "RetryWithParams: "@ + adjustments@,
        RepairAction::SkipAndContinue { skip_count, reason } => "SkipAndContinue ("@ + decimal(
            skip_count as nat,
        ) + " rows): "@ + reason@,
        RepairAction::Escalate { explanation } => "Escalate → User: "@ + explanation@,
    }
}

impl RepairAction {
    /// The displayed action (see [`action_text`]).
    pub fn to_string(&self) -> (r: String)
        ensures
            r@ == action_text(*self),
    {
        let mut v: Vec<char> = Vec::new();
        match self {
            RepairAction::SwapModel { replacement, reason } => {
                push_str(&mut v, "SwapModel → ");
                push_str(&mut v, replacement.as_str());
                push_str(&mut v, ": ");
                push_str(&mut v, reason.as_str());
            },
            RepairAction::AdjustSchema { change } => {
                push_str(&mut v, "AdjustSchema: ");
                push_str(&mut v, change.as_str());
            },
            RepairAction::RetryWithParams { adjustments } => {
                push_str(&mut v, "RetryWithParams: ");
                push_str(&mut v, adjustments.as_str());
            },
            RepairAction::SkipAndContinue { skip_count, reason } => {
                push_str(&mut v, "SkipAndContinue (");
                push_all(&mut v, &decimal_chars(*skip_count as u64));
                push_str(&mut v, " rows): ");
                push_str(&mut v, reason.as_str());
            },
            RepairAction::Escalate { explanation } => {
                push_str(&mut v, "Escalate → User: ");
                push_str(&mut v, explanation.as_str());
            },
        }
        string_of(&v)
    }
}

/// The class of a structural error, as the diagnosing agent recognises it.
#[derive(Debug, Clone, Copy, PartialEq, Eq, Structural)]
pub enum ErrorClass {
    /// Tensor shape or dimension mismatch.
    ShapeMismatch,
    /// Unsupported data format, encoding or codec.
    UnsupportedFormat,
    /// Null or missing input values.
    MissingValues,
    /// The time budget was exceeded.
    Timeout,
    /// Out of memory.
    OutOfMemory,
    /// Nothing recognised.
    Unrecognized,
}

/// The class of an error from its lowercased message: the first of the
/// keyword groups that occurs in it.
pub open spec fn classify_spec(lower: Seq<char>) -> ErrorClass {
    if contains(lower, "dimension"@) || contains(lower, "shape"@) {
        ErrorClass::ShapeMismatch
    } else if contains(lower, "unsupported"@) || contains(lower, "format"@) || contains(
        lower,
        "codec"@,
    ) {
        ErrorClass::UnsupportedFormat
    } else if contains(lower, "null"@) || contains(lower, "missing"@) || contains(lower, "none"@) {
        ErrorClass::MissingValues
    } else if contains(lower, "timeout"@) || contains(lower, "deadline"@) || contains(
        lower,
        "exceeded"@,
    ) {
        ErrorClass::Timeout
    } else if contains(lower, "memory"@) || contains(lower, "oom"@) || contains(
        lower,
        "allocation"@,
    ) {
        ErrorClass::OutOfMemory
    } else {
        ErrorClass::Unrecognized
    }
}

/// The severity of each class.
pub open spec fn severity_spec(class: ErrorClass) -> DiagnosisSeverity {
    match class {
        ErrorClass::ShapeMismatch => DiagnosisSeverity::Recoverable,
        ErrorClass::UnsupportedFormat => DiagnosisSeverity::Degraded,
        ErrorClass::MissingValues => DiagnosisSeverity::Recoverable,
        ErrorClass::Timeout => DiagnosisSeverity::Recoverable,
        ErrorClass::OutOfMemory => DiagnosisSeverity::Degraded,
        ErrorClass::Unrecognized => DiagnosisSeverity::Fatal,
    }
}

/// The diagnosing agent's root-cause text for each class.
pub open spec fn root_cause_spec(
    class: ErrorClass,
    op: Seq<char>,
    context: Seq<char>,
    error_msg: Seq<char>,
) -> Seq<char> {
    match class {
        ErrorClass::ShapeMismatch => "Input tensor shape mismatch in operator '"@ + op
            + "'. The model expects a different number of features than provided."@,
        ErrorClass::UnsupportedFormat => "Unsupported data format encountered by operator '"@ + op
            + "'. The input data contains a type or encoding this operator cannot process."@,
        ErrorClass::MissingValues => "Null or missing values detected in input to '"@ + op
            + "'. "@ + context,
        ErrorClass::Timeout => "Operator '"@ + op
            + "' exceeded its execution time budget. Consider swapping to a faster model variant."@,
        ErrorClass::OutOfMemory => "Out-of-memory condition in operator '"@ + op
            + "'. The input batch may be too large for the current device."@,
        ErrorClass::Unrecognized => "Unrecognized structural error in operator '"@ + op + "': "@
            + error_msg,
    }
}

/// Classify an error message (case-insensitively, see [`classify_spec`]).
pub fn classify_error(error_msg: &str) -> (c: ErrorClass)
    ensures
        c == classify_spec(str_lowercase(error_msg@)),
{
    let lower = to_lowercase(&chars_of(error_msg));
    if contains_exec(&lower, &chars_of("dimension")) || contains_exec(&lower, &chars_of("shape")) {
        ErrorClass::ShapeMismatch
    } else if contains_exec(&lower, &chars_of("unsupported")) || contains_exec(
        &lower,
        &chars_of("format"),
    ) || contains_exec(&lower, &chars_of("codec")) {
        ErrorClass::UnsupportedFormat
    } else if contains_exec(&lower, &chars_of("null")) || contains_exec(&lower, &chars_of("missing"))
        || contains_exec(&lower, &chars_of("none")) {
        ErrorClass::MissingValues
    } else if contains_exec(&lower, &chars_of("timeout")) || contains_exec(
        &lower,
        &chars_of("deadline"),
    ) || contains_exec(&lower, &chars_of("exceeded")) {
        ErrorClass::Timeout
    } else if contains_exec(&lower, &chars_of("memory")) || contains_exec(&lower, &chars_of("oom"))
        || contains_exec(&lower, &chars_of("allocation")) {
        ErrorClass::OutOfMemory
    } else {
        ErrorClass::Unrecognized
    }
}

/// The severity of an error class.
pub fn severity_of(class: ErrorClass) -> (s: DiagnosisSeverity)
    ensures
        s == severity_spec(class),
{
    match class {
        ErrorClass::ShapeMismatch => DiagnosisSeverity::Recoverable,
        ErrorClass::UnsupportedFormat => DiagnosisSeverity::Degraded,
        ErrorClass::MissingValues => DiagnosisSeverity::Recoverable,
        ErrorClass::Timeout => DiagnosisSeverity::Recoverable,
        ErrorClass::OutOfMemory => DiagnosisSeverity::Degraded,
        ErrorClass::Unrecognized => DiagnosisSeverity::Fatal,
    }
}

/// The diagnosing agent's findings: the class of the error, its explained root
/// cause and its severity.
#[derive(Debug, Clone)]
pub struct Review {
    pub class: ErrorClass,
    pub root_cause: String,
    pub severity: DiagnosisSeverity,
}

/// The self-repair agent: diagnoses and patches structural errors.
#[derive(Debug)]
pub struct SelfRepairAgent {
    /// Available model names for swap recommendations.
    available_models: Vec<String>,
}

/// The rewriter's action for a diagnosis: a recoverable error swaps to the
/// first available model other than the failing operator (or retries with
/// smaller batches when there is none); a degraded one skips rows; a fatal
/// one escalates.
pub open spec fn rewrite_spec(
    models: Seq<Seq<char>>,
    severity: DiagnosisSeverity,
    root_cause: Seq<char>,
    op: Seq<char>,
) -> RepairActionView {
    match severity {
        DiagnosisSeverity::Recoverable => match first_other(models, op) {
            Some(alt) => RepairActionView::SwapModel {
                replacement: alt,
                reason: "Swapping from '"@ + op + "' to '"@ + alt + "' to bypass: "@ + root_cause,
            },
            None => RepairActionView::RetryWithParams {
                adjustments: "Reduce batch size and retry."@,
            },
        },
        DiagnosisSeverity::Degraded => RepairActionView::SkipAndContinue {
            skip_count: 0,
            reason: "Continuing in degraded mode. Unsupported rows will be skipped. Root cause: "@
                + root_cause,
        },
        DiagnosisSeverity::Fatal => RepairActionView::Escalate {
            explanation: "Cannot auto-repair: "@ + root_cause
                + ". Please review the operator configuration and input data manually."@,
        },
    }
}

/// The first model name that differs from `op`.
pub open spec fn first_other(models: Seq<Seq<char>>, op: Seq<char>) -> Option<Seq<char>>
    decreases models.len(),
{
    if models.len() == 0 {
        None
    } else if models[0] != op {
        Some(models[0])
    } else {
        first_other(models.drop_first(), op)
    }
}

/// The value of a [`RepairAction`].
pub enum RepairActionView {
    SwapModel { replacement: Seq<char>, reason: Seq<char> },
    AdjustSchema { change: Seq<char> },
    RetryWithParams { adjustments: Seq<char> },
    SkipAndContinue { skip_count: nat, reason: Seq<char> },
    Escalate { explanation: Seq<char> },
}

impl View for RepairAction {
    type V = RepairActionView;

    open spec fn view(&self) -> RepairActionView {
        match self {
            RepairAction::SwapModel { replacement, reason } => RepairActionView::SwapModel {
                replacement: replacement@,
                reason: reason@,
            },
            RepairAction::AdjustSchema { change } => RepairActionView::AdjustSchema {
                change: change@,
            },
            RepairAction::RetryWithParams { adjustments } => RepairActionView::RetryWithParams {
                adjustments: adjustments@,
            },
            RepairAction::SkipAndContinue { skip_count, reason } => RepairActionView::SkipAndContinue {
                skip_count: *skip_count as nat,
                reason: reason@,
            },
            RepairAction::Escalate { explanation } => RepairActionView::Escalate {
                explanation: explanation@,
            },
        }
    }
}

impl SelfRepairAgent {
    /// The available model names, in order.
    pub closed spec fn models(&self) -> Seq<Seq<char>> {
        self.available_models@.map_values(|s: String| s@)
    }

    /// An agent with no models to swap to.
    pub fn new() -> (r: Self)
        ensures
            r.models().len() == 0,
    {
        let r = SelfRepairAgent { available_models: Vec::new() };
        assert(r.models() =~= Seq::<Seq<char>>::empty());
        r
    }

    /// Replace the models available for swap recommendations.
    pub fn register_available_models(&mut self, models: Vec<String>)
        ensures
            final(self).models() == models@.map_values(|s: String| s@),
    {
        self.available_models = models;
    }

    /// Diagnosing agent: classify the error and explain its root cause.
    pub fn review(&self, error_msg: &str, operator_name: &str, context: &str) -> (r: Review)
        ensures
            r.class == classify_spec(str_lowercase(error_msg@)),
            r.severity == severity_spec(r.class),
            r.root_cause@ == root_cause_spec(r.class, operator_name@, context@, error_msg@),
    {
        let class = classify_error(error_msg);
        let mut v: Vec<char> = Vec::new();
        match class {
            ErrorClass::ShapeMismatch => {
                push_str(&mut v, "Input tensor shape mismatch in operator '");
                push_str(&mut v, operator_name);
                push_str(&mut v, "'. The model expects a different number of features than provided.");
            },
            ErrorClass::UnsupportedFormat => {
                push_str(&mut v, "Unsupported data format encountered by operator '");
                push_str(&mut v, operator_name);
                push_str(
                    &mut v,
                    "'. The input data contains a type or encoding this operator cannot process.",
                );
            },
            ErrorClass::MissingValues => {
                push_str(&mut v, "Null or missing values detected in input to '");
                push_str(&mut v, operator_name);
                push_str(&mut v, "'. ");
                push_str(&mut v, context);
            },
            ErrorClass::Timeout => {
                push_str(&mut v, "Operator '");
                push_str(&mut v, operator_name);
                push_str(
                    &mut v,
                    "' exceeded its execution time budget. Consider swapping to a faster model variant.",
                );
            },
            ErrorClass::OutOfMemory => {
                push_str(&mut v, "Out-of-memory condition in operator '");
                push_str(&mut v, operator_name);
                push_str(&mut v, "'. The input batch may be too large for the current device.");
            },
            ErrorClass::Unrecognized => {
                push_str(&mut v, "Unrecognized structural error in operator '");
                push_str(&mut v, operator_name);
                push_str(&mut v, "': ");
                push_str(&mut v, error_msg);
            },
        }
        Review { class, root_cause: string_of(&v), severity: severity_of(class) }
    }

    /// Rewriter: the corrective action for a diagnosis (see
    /// [`rewrite_spec`]).
    pub fn rewrite(&self, severity: DiagnosisSeverity, root_cause: &str, operator_name: &str) -> (r:
        RepairAction)
        ensures
            r@ == rewrite_spec(self.models(), severity, root_cause@, operator_name@),
    {
        match severity {
            DiagnosisSeverity::Recoverable => {
                let op = chars_of(operator_name);
                let mut i: usize = 0;
                assert(self.models().subrange(0, self.models().len() as int) =~= self.models());
                while i < self.available_models.len()
                    invariant
                        i <= self.available_models.len(),
                        op@ == operator_name@,
                        severity == DiagnosisSeverity::Recoverable,
                        first_other(self.models(), op@) == first_other(
                            self.models().subrange(i as int, self.models().len() as int),
                            op@,
                        ),
                    decreases self.available_models.len() - i,
                {
                    let ghost rest = self.models().subrange(i as int, self.models().len() as int);
                    assert(rest[0] == self.available_models@[i as int]@);
                    assert(rest.drop_first() =~= self.models().subrange(
                        i + 1,
                        self.models().len() as int,
                    ));
                    let name = chars_of(self.available_models[i].as_str());
                    if !text_eq(&name, &op) {
                        assert(first_other(self.models(), op@) == Some(name@));
                        let mut reason = chars_of("Swapping from '");
                        push_str(&mut reason, operator_name);
                        push_str(&mut reason, "' to '");
                        push_all(&mut reason, &name);
                        push_str(&mut reason, "' to bypass: ");
                        push_str(&mut reason, root_cause);
                        return RepairAction::SwapModel {
                            replacement: string_of(&name),
                            reason: string_of(&reason),
                        };
                    }
                    i += 1;
                }
                RepairAction::RetryWithParams {
                    adjustments: string_of(&chars_of("Reduce batch size and retry.")),
                }
            },
            DiagnosisSeverity::Degraded => {
                let mut reason = chars_of(
                    "Continuing in degraded mode. Unsupported rows will be skipped. Root cause: ",
                );
                push_str(&mut reason, root_cause);
                RepairAction::SkipAndContinue { skip_count: 0, reason: string_of(&reason) }
            },
            DiagnosisSeverity::Fatal => {
                let mut explanation = chars_of("Cannot auto-repair: ");
                push_str(&mut explanation, root_cause);
                push_str(
                    &mut explanation,
                    ". Please review the operator configuration and input data manually.",
                );
                RepairAction::Escalate { explanation: string_of(&explanation) }
            },
        }
    }
}

impl Default for SelfRepairAgent {
    fn default() -> (r: Self)
        ensures
            r.models().len() == 0,
    {
        Self::new()
    }
}

// ── Skipping rows with nulls ────────────────────────────────────────────

/// Each column's validity is empty (the column has no nulls) or has one
/// entry per row.
pub open spec fn validity_shaped(validity: Seq<Vec<bool>>, num_rows: nat) -> bool {
    forall|c: int| 0 <= c < validity.len() ==> #[trigger] validity[c]@.len() == 0 || validity[c]@.len()
        == num_rows
}

/// Row `row` is valid in every column.
pub open spec fn row_valid(validity: Seq<Vec<bool>>, row: int) -> bool {
    forall|c: int| 0 <= c < validity.len() ==> #[trigger] validity[c]@.len() == 0 || validity[c]@[row]
}

/// The rows below `n` that are valid in every column, in order.
pub open spec fn kept_rows(validity: Seq<Vec<bool>>, n: int) -> Seq<u64>
    decreases n,
{
    if n <= 0 {
        Seq::empty()
    } else if row_valid(validity, n - 1) {
        kept_rows(validity, n - 1).push((n - 1) as u64)
    } else {
        kept_rows(validity, n - 1)
    }
}

/// The rows to keep when skipping failing rows: those with no null in any
/// column, in order.
pub fn rows_to_keep(validity: &Vec<Vec<bool>>, num_rows: usize) -> (r: Vec<u64>)
    requires
        validity_shaped(validity@, num_rows as nat),
    ensures
        r@ == kept_rows(validity@, num_rows as int),
{
    let mut r: Vec<u64> = Vec::new();
    let mut row: usize = 0;
    while row < num_rows
        invariant
            row <= num_rows,
            validity_shaped(validity@, num_rows as nat),
            r@ == kept_rows(validity@, row as int),
        decreases num_rows - row,
    {
        let mut ok = true;
        let mut c: usize = 0;
        while c < validity.len()
            invariant
                c <= validity.len(),
                row < num_rows,
                validity_shaped(validity@, num_rows as nat),
                ok == (forall|k: int| 0 <= k < c ==> #[trigger] validity@[k]@.len() == 0
                    || validity@[k]@[row as int]),
            decreases validity.len() - c,
        {
            let col = &validity[c];
            if col.len() != 0 && !col[row] {
                ok = false;
            }
            c += 1;
        }
        if ok {
            r.push(row as u64);
        }
        row += 1;
    }
    r
}

} // verus!
