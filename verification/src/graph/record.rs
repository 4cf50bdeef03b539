//! A walk written down, and predicates over paths that are listed.
use super::walk::{PathPredicate, Placement, Step, Visit, Visitor};
use vstd::prelude::*;
use vstd::slice::slice_to_vec;

verus! {

/// One thing a walk told its visitor.
#[derive(Debug, Clone, PartialEq, Eq)]
pub enum Event {
    /// A node was reached; the fields are those of the [`Visit`].
    Enter {
        /// Where the appearance sits.
        path: Vec<usize>,
        /// Edge depth below the forest's roots.
        depth: usize,
        /// The node.
        node: usize,
        /// Whether the appearance is expanded, and if not, why not.
        placement: Placement,
        /// How many direct dependencies the node has in the graph.
        degree: usize,
    },
    /// The node and all below it were done.
    Leave {
        /// The node.
        node: usize,
    },
}

impl View for Event {
    type V = Step;

    open spec fn view(&self) -> Step {
        match *self {
            Event::Enter { path, depth, node, placement, degree } => Step::Enter {
                path: path@,
                depth,
                node,
                placement,
                degree,
            },
            Event::Leave { node } => Step::Leave { node },
        }
    }
}

/// Keeps every event of a walk, in order.
#[derive(Debug)]
pub struct Recorder {
    /// What happened so far.
    pub events: Vec<Event>,
}

impl Recorder {
    /// A recorder that nothing was told yet.
    pub fn new() -> (r: Self)
        ensures
            r.trace() == Seq::<Step>::empty(),
    {
        let r = Recorder { events: Vec::new() };
        assert(r.trace() =~= Seq::<Step>::empty());
        r
    }
}

impl Visitor for Recorder {
    open spec fn valid(&self) -> bool {
        true
    }

    open spec fn trace(&self) -> Seq<Step> {
        self.events@.map_values(|e: Event| e@)
    }

    fn enter(&mut self, visit: &Visit<'_>) {
        let event = Event::Enter {
            path: slice_to_vec(visit.path),
            depth: visit.depth,
            node: visit.node,
            placement: visit.placement,
            degree: visit.degree,
        };
        self.events.push(event);
        assert(self.trace() =~= old(self).trace().push(visit.step()));
    }

    fn leave(&mut self, node: usize) {
        self.events.push(Event::Leave { node });
        assert(self.trace() =~= old(self).trace().push(Step::Leave { node }));
    }
}

/// Says yes to the paths of a list, or to all others.
#[derive(Debug, Clone)]
pub struct Listed {
    /// The paths of the list.
    pub paths: Vec<Vec<usize>>,
    /// What is said to a path of the list; any other path is told the opposite.
    pub answer: bool,
}

/// Whether two paths take the same slots.
fn same_path(a: &[usize], b: &[usize]) -> (r: bool)
    ensures
        r == (a@ == b@),
{
    if a.len() != b.len() {
        return false;
    }
    let mut i: usize = 0;
    while i < a.len()
        invariant
            i <= a.len(),
            a.len() == b.len(),
            a@.take(i as int) == b@.take(i as int),
        decreases a.len() - i,
    {
        if a[i] != b[i] {
            return false;
        }
        assert(a@.take(i + 1) =~= a@.take(i as int).push(a@[i as int]));
        assert(b@.take(i + 1) =~= b@.take(i as int).push(b@[i as int]));
        i = i + 1;
    }
    assert(a@.take(i as int) =~= a@);
    assert(b@.take(i as int) =~= b@);
    true
}

impl PathPredicate for Listed {
    open spec fn admits(&self, path: Seq<usize>) -> bool {
        (exists|i: int| 0 <= i < self.paths@.len() && #[trigger] self.paths@[i]@ == path)
            == self.answer
    }

    fn ask(&self, path: &[usize]) -> (r: bool) {
        let mut i: usize = 0;
        while i < self.paths.len()
            invariant
                i <= self.paths.len(),
                forall|k: int| 0 <= k < i ==> #[trigger] self.paths@[k]@ != path@,
            decreases self.paths.len() - i,
        {
            if same_path(self.paths[i].as_slice(), path) {
                return self.answer;
            }
            i = i + 1;
        }
        !self.answer
    }
}

} // verus!
