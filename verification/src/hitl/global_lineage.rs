//! Cluster-wide anomaly isolation: an anomalous data path is paused on its
//! node while the rest of the cluster goes on.

use vstd::prelude::*;

use crate::hitl::triage::{Anomaly, AnomalyView};
use crate::text::{chars_of, decimal, decimal_chars, join, join_exec, push_all, push_str, string_of, text_eq, views};

verus! {

/// Cluster-wide anomaly isolation status.
#[derive(Debug, Clone)]
pub struct IsolatedAnomaly {
    /// The anomaly detected.
    pub anomaly: Anomaly,
    /// Node where the anomaly was detected.
    pub node_id: String,
    /// Whether this data path is isolated (paused).
    pub isolated: bool,
    /// Other nodes continue processing unaffected.
    pub cluster_healthy: bool,
}

/// The value of an [`IsolatedAnomaly`].
pub struct IsolationView {
    pub anomaly: AnomalyView,
    pub node_id: Seq<char>,
    pub isolated: bool,
    pub cluster_healthy: bool,
}

impl View for IsolatedAnomaly {
    type V = IsolationView;

    open spec fn view(&self) -> IsolationView {
        IsolationView {
            anomaly: self.anomaly@,
            node_id: self.node_id@,
            isolated: self.isolated,
            cluster_healthy: self.cluster_healthy,
        }
    }
}

impl IsolatedAnomaly {
    /// Copy an isolation record.
    pub fn duplicate(&self) -> (r: IsolatedAnomaly)
        ensures
            r@ == self@,
    {
        IsolatedAnomaly {
            anomaly: self.anomaly.duplicate(),
            node_id: string_of(&chars_of(self.node_id.as_str())),
            isolated: self.isolated,
            cluster_healthy: self.cluster_healthy,
        }
    }
}

/// The views of a sequence of isolation records.
pub open spec fn isolation_views(v: Seq<IsolatedAnomaly>) -> Seq<IsolationView> {
    v.map_values(|x: IsolatedAnomaly| x@)
}

/// The records after resuming `node`: its isolated records are no longer
/// isolated; everything else is unchanged.
pub open spec fn resumed(s: Seq<IsolationView>, node: Seq<char>) -> Seq<IsolationView> {
    s.map_values(
        |x: IsolationView|
            if x.node_id == node && x.isolated {
                IsolationView { isolated: false, ..x }
            } else {
                x
            },
    )
}

/// The isolated records among the first `n`, in order.
pub open spec fn active_upto(s: Seq<IsolationView>, n: int) -> Seq<IsolationView>
    decreases n,
{
    if n <= 0 {
        Seq::empty()
    } else if s[n - 1].isolated {
        active_upto(s, n - 1).push(s[n - 1])
    } else {
        active_upto(s, n - 1)
    }
}

/// The records that are still isolated, in order.
pub open spec fn active(s: Seq<IsolationView>) -> Seq<IsolationView> {
    active_upto(s, s.len() as int)
}

/// The line shown for an isolated record.
pub open spec fn isolation_line(x: IsolationView) -> Seq<char> {
    "  ⚠ Node "@ + x.node_id + ": ["@ + x.anomaly.severity.label() + "] "@ + x.anomaly.description
}

/// The monitor's summary: all healthy, or a count of the isolated paths
/// followed by one line per path.
pub open spec fn monitor_summary(s: Seq<IsolationView>) -> Seq<char> {
    let a = active(s);
    if a.len() == 0 {
        "═══ Cluster Monitor: All nodes healthy ═══"@
    } else {
        join(
            seq!["═══ Cluster Monitor: "@ + decimal(a.len()) + " isolated path(s) ═══"@] + a.map_values(
                |x: IsolationView| isolation_line(x),
            ),
            "\n"@,
        )
    }
}

/// The cluster-wide monitor: records anomalous data paths per node, so
/// that they can be paused and resumed without blocking the cluster.
#[derive(Debug)]
pub struct ClusterMonitor {
    isolated: Vec<IsolatedAnomaly>,
}

impl View for ClusterMonitor {
    type V = Seq<IsolationView>;

    closed spec fn view(&self) -> Seq<IsolationView> {
        isolation_views(self.isolated@)
    }
}

impl ClusterMonitor {
    /// A monitor with no record.
    pub fn new() -> (r: Self)
        ensures
            r@.len() == 0,
    {
        let r = ClusterMonitor { isolated: Vec::new() };
        assert(r@ =~= Seq::<IsolationView>::empty());
        r
    }

    /// Isolate an anomalous data path on a node: the record is added,
    /// isolated and with the cluster healthy, and returned.
    pub fn isolate_anomaly(&mut self, node_id: &str, anomaly: Anomaly) -> (r: IsolatedAnomaly)
        ensures
            r@ == (IsolationView {
                anomaly: anomaly@,
                node_id: node_id@,
                isolated: true,
                cluster_healthy: true,
            }),
            final(self)@ == old(self)@.push(r@),
    {
        let record = IsolatedAnomaly {
            anomaly,
            node_id: string_of(&chars_of(node_id)),
            isolated: true,
            cluster_healthy: true,
        };
        let copy = record.duplicate();
        let ghost before = self@;
        self.isolated.push(copy);
        assert(self@ =~= before.push(record@));
        record
    }

    /// Resume every isolated data path of a node.
    pub fn resume(&mut self, node_id: &str)
        ensures
            final(self)@ == resumed(old(self)@, node_id@),
    {
        let node = chars_of(node_id);
        let ghost start = self@;
        let mut i: usize = 0;
        while i < self.isolated.len()
            invariant
                i <= self.isolated.len() == start.len(),
                node@ == node_id@,
                start == old(self)@,
                forall|k: int| 0 <= k < i ==> #[trigger] self@[k] == resumed(start, node@)[k],
                forall|k: int| i <= k < self.isolated.len() ==> #[trigger] self@[k] == start[k],
            decreases self.isolated.len() - i,
        {
            let matches = text_eq(&chars_of(self.isolated[i].node_id.as_str()), &node);
            let ghost before = self.isolated@;
            let ghost before_view = self@;
            assert(before_view[i as int] == start[i as int]);
            assert(before_view == isolation_views(before));
            if matches && self.isolated[i].isolated {
                self.isolated[i].isolated = false;
                assert(self.isolated@ == before.update(i as int, self.isolated@[i as int]));
                assert(self@[i as int] == resumed(start, node@)[i as int]);
                assert(forall|k: int|
                    0 <= k < self.isolated.len() && k != i ==> #[trigger] self@[k] == before_view[k]);
            } else {
                assert(self@[i as int] == resumed(start, node@)[i as int]);
            }
            i += 1;
        }
        assert(self@ =~= resumed(start, node@));
    }

    /// The records that are still isolated, in order.
    pub fn active_isolations(&self) -> (r: Vec<IsolatedAnomaly>)
        ensures
            isolation_views(r@) == active(self@),
    {
        let mut r: Vec<IsolatedAnomaly> = Vec::new();
        let mut i: usize = 0;
        while i < self.isolated.len()
            invariant
                i <= self.isolated.len(),
                isolation_views(r@) == active_upto(self@, i as int),
            decreases self.isolated.len() - i,
        {
            assert(self@[i as int] == self.isolated@[i as int]@);
            if self.isolated[i].isolated {
                let x = self.isolated[i].duplicate();
                let ghost rv = isolation_views(r@);
                r.push(x);
                assert(isolation_views(r@) =~= rv.push(x@));
            }
            i += 1;
        }
        r
    }

    /// The monitor's summary for display (see [`monitor_summary`]).
    pub fn summary(&self) -> (r: String)
        ensures
            r@ == monitor_summary(self@),
    {
        let active = self.active_isolations();
        if active.len() == 0 {
            return string_of(&chars_of("═══ Cluster Monitor: All nodes healthy ═══"));
        }
        let ghost a = isolation_views(active@);
        let mut header = chars_of("═══ Cluster Monitor: ");
        push_all(&mut header, &decimal_chars(active.len() as u64));
        push_str(&mut header, " isolated path(s) ═══");
        let mut lines: Vec<Vec<char>> = Vec::new();
        let ghost h = header@;
        lines.push(header);
        let mut i: usize = 0;
        while i < active.len()
            invariant
                i <= active.len(),
                a == isolation_views(active@),
                views(lines@) == seq![h] + a.subrange(0, i as int).map_values(
                    |x: IsolationView| isolation_line(x),
                ),
            decreases active.len() - i,
        {
            let x = &active[i];
            assert(a[i as int] == x@);
            let mut line = chars_of("  ⚠ Node ");
            push_str(&mut line, x.node_id.as_str());
            push_str(&mut line, ": [");
            push_str(&mut line, x.anomaly.severity.to_string().as_str());
            push_str(&mut line, "] ");
            push_str(&mut line, x.anomaly.description.as_str());
            let ghost lv = views(lines@);
            let ghost one = line@;
            lines.push(line);
            assert(views(lines@) =~= lv.push(one));
            assert(a.subrange(0, i + 1).map_values(|x: IsolationView| isolation_line(x)) =~= a.subrange(
                0,
                i as int,
            ).map_values(|x: IsolationView| isolation_line(x)).push(isolation_line(a[i as int])));
            i += 1;
        }
        assert(a.subrange(0, active.len() as int) =~= a);
        string_of(&join_exec(&lines, &chars_of("\n")))
    }
}

impl Default for ClusterMonitor {
    fn default() -> (r: Self)
        ensures
            r@.len() == 0,
    {
        Self::new()
    }
}

/// Resuming a node leaves none of its data paths isolated, and leaves the
/// paths of other nodes as they were.
pub proof fn lemma_resume_clears_node(s: Seq<IsolationView>, node: Seq<char>)
    ensures
        forall|k: int| 0 <= k < active(resumed(s, node)).len() ==> #[trigger] active(
            resumed(s, node),
        )[k].node_id != node,
        forall|k: int|
            0 <= k < s.len() && s[k].node_id != node ==> #[trigger] resumed(s, node)[k] == s[k],
        resumed(s, node).len() == s.len(),
{
    lemma_active_from(resumed(s, node), s.len() as int, node);
}

proof fn lemma_active_from(s: Seq<IsolationView>, n: int, node: Seq<char>)
    requires
        0 <= n <= s.len(),
        forall|k: int| 0 <= k < s.len() && s[k].isolated ==> s[k].node_id != node,
    ensures
        forall|k: int| 0 <= k < active_upto(s, n).len() ==> #[trigger] active_upto(s, n)[k].node_id
            != node,
    decreases n,
{
    if n > 0 {
        lemma_active_from(s, n - 1, node);
    }
}

/// Isolating an anomaly makes its data path one of the active isolations,
/// the last one.
pub proof fn lemma_isolate_then_active(s: Seq<IsolationView>, x: IsolationView)
    requires
        x.isolated,
    ensures
        active(s.push(x)) == active(s).push(x),
{
    lemma_active_prefix(s.push(x), s.len() as int);
    assert(s.push(x).subrange(0, s.len() as int) =~= s);
}

proof fn lemma_active_prefix(s: Seq<IsolationView>, n: int)
    requires
        0 <= n <= s.len(),
    ensures
        active_upto(s, n) == active(s.subrange(0, n)),
    decreases n,
{
    if n > 0 {
        lemma_active_prefix(s, n - 1);
        let t = s.subrange(0, n);
        assert(t.subrange(0, n - 1) =~= s.subrange(0, n - 1));
        lemma_active_prefix(t, n - 1);
    }
}

} // verus!
