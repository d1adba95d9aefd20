//! The condition stack: one boolean per level of nested IF/ELSE, kept as two
//! integers.

use vstd::prelude::*;

verus! {

/// What the condition stack remembers of a stack of booleans: how many there
/// are, and where the lowest `false` sits.
pub struct ConditionSummary {
    pub size: nat,
    pub first_false: Option<nat>,
}

impl ConditionSummary {
    /// The summary of the empty stack.
    pub open spec fn empty() -> ConditionSummary {
        ConditionSummary { size: 0, first_false: None }
    }

    pub open spec fn all_true(self) -> bool {
        self.first_false is None
    }

    pub open spec fn push(self, v: bool) -> ConditionSummary {
        ConditionSummary {
            size: self.size + 1,
            first_false: if self.first_false is None && !v {
                Some(self.size)
            } else {
                self.first_false
            },
        }
    }

    /// Removes the top entry; an empty stack stays as it is.
    pub open spec fn pop(self) -> ConditionSummary {
        if self.size == 0 {
            self
        } else {
            ConditionSummary {
                size: (self.size - 1) as nat,
                first_false: if self.first_false == Some((self.size - 1) as nat) {
                    None
                } else {
                    self.first_false
                },
            }
        }
    }

    /// Flips the top entry; an empty stack stays as it is.
    pub open spec fn toggle_top(self) -> ConditionSummary {
        if self.size == 0 {
            self
        } else {
            ConditionSummary {
                size: self.size,
                first_false: if self.first_false is None {
                    Some((self.size - 1) as nat)
                } else if self.first_false == Some((self.size - 1) as nat) {
                    None
                } else {
                    self.first_false
                },
            }
        }
    }
}

/// Whether every entry of `s` is true.
pub open spec fn every_true(s: Seq<bool>) -> bool {
    forall|i: int| 0 <= i < s.len() ==> s[i]
}

/// Whether `i` is the position of the lowest `false` in `s`.
pub open spec fn is_first_false(s: Seq<bool>, i: int) -> bool {
    &&& 0 <= i < s.len()
    &&& !s[i]
    &&& forall|j: int| 0 <= j < i ==> s[j]
}

/// The summary of a stack of booleans, bottom first.
pub open spec fn summarize(s: Seq<bool>) -> ConditionSummary {
    ConditionSummary {
        size: s.len(),
        first_false: if every_true(s) {
            None
        } else {
            Some((choose|i: int| is_first_false(s, i)) as nat)
        },
    }
}

/// A step of the IF/ELSE bookkeeping.
pub enum ConditionOp {
    Push(bool),
    Pop,
    ToggleTop,
}

/// One step on a stack of booleans kept in full.
pub open spec fn step_full(s: Seq<bool>, op: ConditionOp) -> Seq<bool> {
    match op {
        ConditionOp::Push(v) => s.push(v),
        ConditionOp::Pop => if s.len() == 0 {
            s
        } else {
            s.drop_last()
        },
        ConditionOp::ToggleTop => if s.len() == 0 {
            s
        } else {
            s.update(s.len() - 1, !s.last())
        },
    }
}

/// One step on a summary.
pub open spec fn step_summary(c: ConditionSummary, op: ConditionOp) -> ConditionSummary {
    match op {
        ConditionOp::Push(v) => c.push(v),
        ConditionOp::Pop => c.pop(),
        ConditionOp::ToggleTop => c.toggle_top(),
    }
}

/// The stack of booleans that `ops` build from the empty stack.
pub open spec fn run_full(ops: Seq<ConditionOp>) -> Seq<bool>
    decreases ops.len(),
{
    if ops.len() == 0 {
        Seq::empty()
    } else {
        step_full(run_full(ops.drop_last()), ops.last())
    }
}

/// The summary that `ops` build from the empty summary.
pub open spec fn run_summary(ops: Seq<ConditionOp>) -> ConditionSummary
    decreases ops.len(),
{
    if ops.len() == 0 {
        ConditionSummary::empty()
    } else {
        step_summary(run_summary(ops.drop_last()), ops.last())
    }
}

/// A stack with a `false` in it has a lowest one.
pub proof fn lemma_first_false_exists(s: Seq<bool>)
    requires
        !every_true(s),
    ensures
        exists|i: int| is_first_false(s, i),
    decreases s.len(),
{
    let k = choose|k: int| 0 <= k < s.len() && !s[k];
    let t = s.take(k);
    if every_true(t) {
        assert forall|j: int| 0 <= j < k implies s[j] by {
            assert(t[j] == s[j]);
        }
        assert(is_first_false(s, k));
    } else {
        lemma_first_false_exists(t);
        let i = choose|i: int| is_first_false(t, i);
        assert forall|j: int| 0 <= j < i implies s[j] by {
            assert(t[j] == s[j]);
        }
        assert(t[i] == s[i]);
        assert(is_first_false(s, i));
    }
}

/// The lowest `false` of a stack is where its summary says.
pub proof fn lemma_summarize_first_false(s: Seq<bool>, i: int)
    requires
        is_first_false(s, i),
    ensures
        summarize(s).first_false == Some(i as nat),
{
    assert(!every_true(s));
    let c = choose|c: int| is_first_false(s, c);
    assert(is_first_false(s, c));
    if c < i {
        assert(s[c]);
    } else if i < c {
        assert(s[i]);
    }
}

/// Summarizing commutes with every step: what the two integers record after
/// a step is the summary of the full stack after the same step.
pub proof fn lemma_step_commutes(s: Seq<bool>, op: ConditionOp)
    ensures
        summarize(step_full(s, op)) == step_summary(summarize(s), op),
{
    let t = step_full(s, op);
    if every_true(s) {
        match op {
            ConditionOp::Push(v) => {
                if v {
                    assert(every_true(t));
                } else {
                    assert(is_first_false(t, s.len() as int));
                    lemma_summarize_first_false(t, s.len() as int);
                }
            },
            ConditionOp::Pop => {
                assert(every_true(t));
            },
            ConditionOp::ToggleTop => {
                if s.len() > 0 {
                    assert(s[s.len() - 1]);
                    assert(is_first_false(t, s.len() - 1));
                    lemma_summarize_first_false(t, s.len() - 1);
                }
            },
        }
    } else {
        lemma_first_false_exists(s);
        let f = choose|i: int| is_first_false(s, i);
        lemma_summarize_first_false(s, f);
        match op {
            ConditionOp::Push(v) => {
                assert(is_first_false(t, f));
                lemma_summarize_first_false(t, f);
            },
            ConditionOp::Pop => {
                if f == s.len() - 1 {
                    assert(every_true(t));
                } else {
                    assert(is_first_false(t, f));
                    lemma_summarize_first_false(t, f);
                }
            },
            ConditionOp::ToggleTop => {
                if f == s.len() - 1 {
                    assert(every_true(t));
                } else {
                    assert(is_first_false(t, f));
                    lemma_summarize_first_false(t, f);
                }
            },
        }
    }
}

/// Whether the first false of a summary, where there is one, lies inside
/// the stack.
pub open spec fn in_range(c: ConditionSummary) -> bool {
    c.first_false matches Some(i) ==> i < c.size
}

/// After a push everything is true where it was before and the pushed value
/// is; a pop then gives back the stack as it was before the push.
pub proof fn lemma_push_then_pop(c: ConditionSummary, v: bool)
    requires
        in_range(c),
    ensures
        in_range(c.push(v)),
        c.push(v).all_true() == (c.all_true() && v),
        c.push(v).size > 0,
        c.push(v).pop() == c,
{
}

/// Whatever pushes, pops and toggles are made from the empty stack, the two
/// integers answer "is everything true?" as the full stack of booleans does.
pub proof fn lemma_all_true_matches_full_stack(ops: Seq<ConditionOp>)
    ensures
        run_summary(ops) == summarize(run_full(ops)),
        run_summary(ops).all_true() == every_true(run_full(ops)),
    decreases ops.len(),
{
    if ops.len() == 0 {
        assert(every_true(Seq::<bool>::empty()));
    } else {
        lemma_all_true_matches_full_stack(ops.drop_last());
        lemma_step_commutes(run_full(ops.drop_last()), ops.last());
    }
}

/// A data type to abstract out the condition stack during script execution.
///
/// Conceptually it acts like a vector of booleans, one for each level of
/// nested IF/ELSE, indicating whether we're in the active or inactive branch
/// of each. The entries cannot be observed one by one, so only the size of
/// the would-be stack and the position of its first false value are stored.
pub struct ConditionStack {
    /// The size of the implied stack.
    size: usize,
    /// The position of the first false value on the implied stack,
    /// or `NO_FALSE` if all true.
    first_false_pos: usize,
}

/// The value of `first_false_pos` that says there is no false.
const NO_FALSE: usize = usize::MAX;

impl View for ConditionStack {
    type V = ConditionSummary;

    closed spec fn view(&self) -> ConditionSummary {
        ConditionSummary {
            size: self.size as nat,
            first_false: if self.first_false_pos == NO_FALSE {
                None
            } else {
                Some(self.first_false_pos as nat)
            },
        }
    }
}

impl ConditionStack {
    /// The first false, where there is one, lies inside the stack.
    pub closed spec fn wf(&self) -> bool {
        self.first_false_pos == NO_FALSE || self.first_false_pos < self.size
    }

    /// What `wf` says of the view.
    pub proof fn lemma_wf_view(&self)
        requires
            self.wf(),
        ensures
            self@.size <= usize::MAX,
            in_range(self@),
    {
    }

    pub fn new() -> (r: Self)
        ensures
            r.wf(),
            r@ == ConditionSummary::empty(),
    {
        Self { size: 0, first_false_pos: NO_FALSE }
    }

    pub fn all_true(&self) -> (r: bool)
        ensures
            r == self@.all_true(),
    {
        self.first_false_pos == NO_FALSE
    }

    pub fn push(&mut self, v: bool)
        requires
            old(self).wf(),
            old(self)@.size < usize::MAX,
        ensures
            final(self).wf(),
            final(self)@ == old(self)@.push(v),
    {
        if self.first_false_pos == NO_FALSE && !v {
            // The stack consists of all true values, and a false is added.
            // The first false value will appear at the current size.
            self.first_false_pos = self.size;
        }
        self.size += 1;
    }

    /// Returns `false` if it was empty, `true` otherwise.
    ///
    /// Note that the popped value is not returned.
    pub fn pop(&mut self) -> (r: bool)
        requires
            old(self).wf(),
        ensures
            final(self).wf(),
            r == (old(self)@.size > 0),
            final(self)@ == old(self)@.pop(),
    {
        if self.size == 0 {
            false
        } else {
            self.size -= 1;
            if self.first_false_pos == self.size {
                // When popping off the first false value, everything becomes true.
                self.first_false_pos = NO_FALSE;
            }
            true
        }
    }

    /// Flips the top value. Returns `false` if the stack was empty, `true`
    /// otherwise.
    pub fn toggle_top(&mut self) -> (r: bool)
        requires
            old(self).wf(),
        ensures
            final(self).wf(),
            r == (old(self)@.size > 0),
            final(self)@ == old(self)@.toggle_top(),
    {
        if self.size == 0 {
            false
        } else {
            if self.first_false_pos == NO_FALSE {
                // The current stack is all true values; the first false will be the top.
                self.first_false_pos = self.size - 1;
            } else if self.first_false_pos == self.size - 1 {
                // The top is the first false value; toggling it will make everything true.
                self.first_false_pos = NO_FALSE;
            }
            // Otherwise there is a false value below the top, and toggling
            // anything but the first false value is unobservable.

            true
        }
    }
}

} // verus!
