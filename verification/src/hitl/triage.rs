//! Interactive triage: anomalies, the actions that resolve them and the
//! session that collects those actions.

use vstd::prelude::*;

use crate::text::{
    chars_of, debug_str, decimal, decimal_chars, join, join_exec, push_all, push_str, str_debug,
    string_of, views,
};

verus! {

/// Severity level of a detected semantic anomaly.
#[derive(Debug, Clone, Copy, PartialEq, Eq, Structural)]
pub enum AnomalySeverity {
    /// The query completed but results look unusual.
    Info,
    /// Results may be unreliable; user review recommended.
    Warning,
    /// The model or logic is likely producing garbage; pause execution.
    Critical,
}

impl AnomalySeverity {
    /// The displayed name.
    pub open spec fn label(self) -> Seq<char> {
        match self {
            AnomalySeverity::Info => "INFO"@,
            AnomalySeverity::Warning => "WARNING"@,
            AnomalySeverity::Critical => "CRITICAL"@,
        }
    }

    /// The displayed name.
    pub fn to_string(&self) -> (r: String)
        ensures
            r@ == self.label(),
    {
        let s = match self {
            AnomalySeverity::Info => "INFO",
            AnomalySeverity::Warning => "WARNING",
            AnomalySeverity::Critical => "CRITICAL",
        };
        string_of(&chars_of(s))
    }
}

/// A semantic anomaly detected by the monitor.
#[derive(Debug, Clone)]
pub struct Anomaly {
    /// Human-readable description of the anomaly.
    pub description: String,
    /// Number of rows affected.
    pub affected_rows: usize,
    /// Severity level.
    pub severity: AnomalySeverity,
    /// Suggested corrective action.
    pub suggested_action: String,
}

/// The value of an [`Anomaly`].
pub struct AnomalyView {
    pub description: Seq<char>,
    pub affected_rows: nat,
    pub severity: AnomalySeverity,
    pub suggested_action: Seq<char>,
}

impl View for Anomaly {
    type V = AnomalyView;

    open spec fn view(&self) -> AnomalyView {
        AnomalyView {
            description: self.description@,
            affected_rows: self.affected_rows as nat,
            severity: self.severity,
            suggested_action: self.suggested_action@,
        }
    }
}

/// An anomaly as displayed: severity, description and affected rows, then
/// the suggested action on a line of its own.
pub open spec fn anomaly_text(a: AnomalyView) -> Seq<char> {
    "["@ + a.severity.label() + "] "@ + a.description + " ("@ + decimal(a.affected_rows)
        + " rows affected)\n  → "@ + a.suggested_action
}

impl Anomaly {
    /// The displayed anomaly (see [`anomaly_text`]).
    pub fn to_string(&self) -> (r: String)
        ensures
            r@ == anomaly_text(self@),
    {
        let mut v = chars_of("[");
        push_str(&mut v, self.severity.to_string().as_str());
        push_str(&mut v, "] ");
        push_str(&mut v, self.description.as_str());
        push_str(&mut v, " (");
        push_all(&mut v, &decimal_chars(self.affected_rows as u64));
        push_str(&mut v, " rows affected)\n  → ");
        push_str(&mut v, self.suggested_action.as_str());
        string_of(&v)
    }

    /// Copy an anomaly.
    pub fn duplicate(&self) -> (r: Anomaly)
        ensures
            r@ == self@,
    {
        Anomaly {
            description: string_of(&chars_of(self.description.as_str())),
            affected_rows: self.affected_rows,
            severity: self.severity,
            suggested_action: string_of(&chars_of(self.suggested_action.as_str())),
        }
    }
}

/// The outcome of a triage interaction.
#[derive(Debug, Clone)]
pub enum TriageAction {
    /// Accept the results as they are despite the anomaly.
    Accept,
    /// Provide a natural-language correction to refine the query.
    Correct(String),
    /// Abort the query entirely.
    Abort,
    /// Retry with a different model.
    RetryWithModel(String),
}

/// An action as `Debug` writes it: the variant's name, with the text in
/// parentheses for the variants that carry one.
pub open spec fn action_debug(a: TriageAction) -> Seq<char> {
    match a {
        TriageAction::Accept => "Accept"@,
        TriageAction::Correct(s) => "Correct("@ + str_debug(s@) + ")"@,
        TriageAction::Abort => "Abort"@,
        TriageAction::RetryWithModel(s) => "RetryWithModel("@ + str_debug(s@) + ")"@,
    }
}

impl TriageAction {
    /// The action as `Debug` writes it (see [`action_debug`]).
    pub fn debug_text(&self) -> (r: String)
        ensures
            r@ == action_debug(*self),
    {
        let mut v: Vec<char> = Vec::new();
        match self {
            TriageAction::Accept => push_str(&mut v, "Accept"),
            TriageAction::Correct(s) => {
                push_str(&mut v, "Correct(");
                push_str(&mut v, debug_str(s.as_str()).as_str());
                push_str(&mut v, ")");
            },
            TriageAction::Abort => push_str(&mut v, "Abort"),
            TriageAction::RetryWithModel(s) => {
                push_str(&mut v, "RetryWithModel(");
                push_str(&mut v, debug_str(s.as_str()).as_str());
                push_str(&mut v, ")");
            },
        }
        string_of(&v)
    }
}

/// A triage session: the anomalies to resolve and the actions collected
/// from the user, the `i`-th action answering the `i`-th anomaly.
#[derive(Debug)]
pub struct TriageSession {
    /// The anomalies to resolve.
    pub anomalies: Vec<Anomaly>,
    /// Collected actions from the user.
    pub actions: Vec<TriageAction>,
}

/// The lines shown for the `i`-th anomaly (and its action, if any).
pub open spec fn anomaly_lines(i: int, a: AnomalyView, action: Option<TriageAction>) -> Seq<Seq<char>> {
    let base = seq![
        "\n[Anomaly "@ + decimal((i + 1) as nat) + "]"@,
        "  Severity: "@ + a.severity.label(),
        "  "@ + a.description,
        "  Affected rows: "@ + decimal(a.affected_rows),
        "  Suggested: "@ + a.suggested_action,
    ];
    match action {
        Some(act) => base.push("  Action: "@ + action_debug(act)),
        None => base,
    }
}

/// The lines for the first `n` anomalies.
pub open spec fn triage_lines(anomalies: Seq<AnomalyView>, actions: Seq<TriageAction>, n: int) -> Seq<
    Seq<char>,
>
    decreases n,
{
    if n <= 0 {
        Seq::empty()
    } else {
        triage_lines(anomalies, actions, n - 1) + anomaly_lines(
            n - 1,
            anomalies[n - 1],
            if n - 1 < actions.len() {
                Some(actions[n - 1])
            } else {
                None
            },
        )
    }
}

/// The views of a sequence of anomalies.
pub open spec fn anomaly_views(v: Seq<Anomaly>) -> Seq<AnomalyView> {
    v.map_values(|a: Anomaly| a@)
}

/// The summary of a session: a header, then the lines of each anomaly,
/// joined by line breaks.
pub open spec fn triage_summary(anomalies: Seq<AnomalyView>, actions: Seq<TriageAction>) -> Seq<char> {
    join(
        seq!["═══ Semantic Anomaly Triage ═══"@] + triage_lines(
            anomalies,
            actions,
            anomalies.len() as int,
        ),
        "\n"@,
    )
}

impl TriageSession {
    /// A session for the given anomalies, with no action yet.
    pub fn new(anomalies: Vec<Anomaly>) -> (r: Self)
        ensures
            r.anomalies@ == anomalies@,
            r.actions@.len() == 0,
    {
        TriageSession { anomalies, actions: Vec::new() }
    }

    /// Record a user's triage action.
    pub fn record_action(&mut self, action: TriageAction)
        ensures
            final(self).actions@ == old(self).actions@.push(action),
            final(self).anomalies@ == old(self).anomalies@,
    {
        self.actions.push(action);
    }

    /// Whether every anomaly has been answered.
    pub fn is_complete(&self) -> (b: bool)
        ensures
            b == (self.actions@.len() >= self.anomalies@.len()),
    {
        self.actions.len() >= self.anomalies.len()
    }

    /// The session's summary for display (see [`triage_summary`]).
    pub fn summary(&self) -> (r: String)
        requires
            self.anomalies@.len() < u64::MAX,
        ensures
            r@ == triage_summary(anomaly_views(self.anomalies@), self.actions@),
    {
        let ghost avs = anomaly_views(self.anomalies@);
        let mut lines: Vec<Vec<char>> = Vec::new();
        lines.push(chars_of("═══ Semantic Anomaly Triage ═══"));
        let mut i: usize = 0;
        while i < self.anomalies.len()
            invariant
                i <= self.anomalies.len() < u64::MAX,
                avs == anomaly_views(self.anomalies@),
                views(lines@) == seq!["═══ Semantic Anomaly Triage ═══"@] + triage_lines(
                    avs,
                    self.actions@,
                    i as int,
                ),
            decreases self.anomalies.len() - i,
        {
            let a = &self.anomalies[i];
            assert(avs[i as int] == a@);
            let ghost before = views(lines@);
            let mut l1 = chars_of("\n[Anomaly ");
            push_all(&mut l1, &decimal_chars((i + 1) as u64));
            push_str(&mut l1, "]");
            let mut l2 = chars_of("  Severity: ");
            push_str(&mut l2, a.severity.to_string().as_str());
            let mut l3 = chars_of("  ");
            push_str(&mut l3, a.description.as_str());
            let mut l4 = chars_of("  Affected rows: ");
            push_all(&mut l4, &decimal_chars(a.affected_rows as u64));
            let mut l5 = chars_of("  Suggested: ");
            push_str(&mut l5, a.suggested_action.as_str());
            let ghost v1 = l1@;
            let ghost v2 = l2@;
            let ghost v3 = l3@;
            let ghost v4 = l4@;
            let ghost v5 = l5@;
            lines.push(l1);
            lines.push(l2);
            lines.push(l3);
            lines.push(l4);
            lines.push(l5);
            let ghost base = seq![v1, v2, v3, v4, v5];
            assert(views(lines@) =~= before + base);
            if i < self.actions.len() {
                let mut l6 = chars_of("  Action: ");
                push_str(&mut l6, self.actions[i].debug_text().as_str());
                let ghost v6 = l6@;
                lines.push(l6);
                assert(views(lines@) =~= before + base.push(v6));
            }
            assert(views(lines@) =~= seq!["═══ Semantic Anomaly Triage ═══"@] + triage_lines(
                avs,
                self.actions@,
                i + 1,
            ));
            i += 1;
        }
        string_of(&join_exec(&lines, &chars_of("\n")))
    }
}


/// The actions a fresh session holds after `record_action` was called with
/// each of `recorded` in turn: every call appends its action.
pub open spec fn actions_after(recorded: Seq<TriageAction>) -> Seq<TriageAction>
    decreases recorded.len(),
{
    if recorded.len() == 0 {
        Seq::empty()
    } else {
        actions_after(recorded.drop_last()).push(recorded.last())
    }
}

/// A session over `n` anomalies that recorded `k` actions since it was
/// made is complete exactly when `k >= n`: it holds the recorded actions,
/// in order, and once complete it stays complete.
pub proof fn lemma_triage_completion(n: nat, recorded: Seq<TriageAction>)
    ensures
        actions_after(recorded) == recorded,
        (actions_after(recorded).len() >= n) <==> recorded.len() >= n,
        forall|j: int|
            0 <= j <= recorded.len() && #[trigger] actions_after(recorded.subrange(0, j)).len() >= n
                ==> actions_after(recorded).len() >= n,
    decreases recorded.len(),
{
    if recorded.len() > 0 {
        lemma_triage_completion(n, recorded.drop_last());
        assert(recorded.drop_last().push(recorded.last()) =~= recorded);
    } else {
        assert(recorded =~= Seq::<TriageAction>::empty());
    }
    assert forall|j: int|
        0 <= j <= recorded.len() && #[trigger] actions_after(recorded.subrange(0, j)).len() >= n implies actions_after(
        recorded,
    ).len() >= n by {
        lemma_actions_after_len(recorded.subrange(0, j));
    }
}

proof fn lemma_actions_after_len(recorded: Seq<TriageAction>)
    ensures
        actions_after(recorded).len() == recorded.len(),
    decreases recorded.len(),
{
    if recorded.len() > 0 {
        lemma_actions_after_len(recorded.drop_last());
    }
}

} // verus!
