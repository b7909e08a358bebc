//! Capability sets and the negotiation merge.
//!
//! A capability set is a fixed, closed list of named feature slots, each
//! absent or present with a value. The merged set advertised to the client
//! is a fold over the registered providers in registration order: a slot
//! takes the first present value and is never overwritten by a later
//! provider. Registration order therefore decides precedence between
//! conflicting providers; that is a deliberate, load-bearing policy of this
//! crate, not an accident of iteration.

use vstd::prelude::*;

verus! {

/// The closed list of capability slots this server negotiates.
#[derive(Debug, Clone, PartialEq)]
pub struct CapabilitySet {
    pub position_encoding: Option<String>,
    pub text_document_sync: Option<String>,
    pub hover_provider: Option<String>,
    pub completion_provider: Option<String>,
    pub diagnostic_provider: Option<String>,
}

pub ghost struct CapabilitySetView {
    pub position_encoding: Option<Seq<char>>,
    pub text_document_sync: Option<Seq<char>>,
    pub hover_provider: Option<Seq<char>>,
    pub completion_provider: Option<Seq<char>>,
    pub diagnostic_provider: Option<Seq<char>>,
}

pub open spec fn opt_view(o: Option<String>) -> Option<Seq<char>> {
    match o {
        Some(s) => Some(s@),
        None => None,
    }
}

impl View for CapabilitySet {
    type V = CapabilitySetView;

    open spec fn view(&self) -> CapabilitySetView {
        CapabilitySetView {
            position_encoding: opt_view(self.position_encoding),
            text_document_sync: opt_view(self.text_document_sync),
            hover_provider: opt_view(self.hover_provider),
            completion_provider: opt_view(self.completion_provider),
            diagnostic_provider: opt_view(self.diagnostic_provider),
        }
    }
}

/// The set with every slot absent.
pub open spec fn spec_empty_caps() -> CapabilitySetView {
    CapabilitySetView {
        position_encoding: None,
        text_document_sync: None,
        hover_provider: None,
        completion_provider: None,
        diagnostic_provider: None,
    }
}

/// Slot-wise merge: a present slot of `a` wins; an absent one is filled
/// from `b`.
pub open spec fn spec_merge_field(a: Option<Seq<char>>, b: Option<Seq<char>>) -> Option<
    Seq<char>,
> {
    if a is Some {
        a
    } else {
        b
    }
}

pub open spec fn spec_merge(a: CapabilitySetView, b: CapabilitySetView) -> CapabilitySetView {
    CapabilitySetView {
        position_encoding: spec_merge_field(a.position_encoding, b.position_encoding),
        text_document_sync: spec_merge_field(a.text_document_sync, b.text_document_sync),
        hover_provider: spec_merge_field(a.hover_provider, b.hover_provider),
        completion_provider: spec_merge_field(a.completion_provider, b.completion_provider),
        diagnostic_provider: spec_merge_field(a.diagnostic_provider, b.diagnostic_provider),
    }
}

/// The merged set of a sequence of capability sets, in order: each slot
/// takes the first present value.
pub open spec fn spec_merge_all(sets: Seq<CapabilitySetView>) -> CapabilitySetView
    decreases sets.len(),
{
    if sets.len() == 0 {
        spec_empty_caps()
    } else {
        spec_merge(sets[0], spec_merge_all(sets.skip(1)))
    }
}

/// The first present value among a sequence of slots, in order.
pub open spec fn spec_first_value(vals: Seq<Option<Seq<char>>>) -> Option<Seq<char>>
    decreases vals.len(),
{
    if vals.len() == 0 {
        None
    } else if vals[0] is Some {
        vals[0]
    } else {
        spec_first_value(vals.skip(1))
    }
}

/// The merge law: in the merged set every slot holds the first value that
/// any provider offered for it, in registration order; once a slot is set,
/// no later provider overwrites it.
pub proof fn lemma_merge_all_first_wins(sets: Seq<CapabilitySetView>)
    ensures
        spec_merge_all(sets).position_encoding == spec_first_value(
            sets.map_values(|v: CapabilitySetView| v.position_encoding),
        ),
        spec_merge_all(sets).text_document_sync == spec_first_value(
            sets.map_values(|v: CapabilitySetView| v.text_document_sync),
        ),
        spec_merge_all(sets).hover_provider == spec_first_value(
            sets.map_values(|v: CapabilitySetView| v.hover_provider),
        ),
        spec_merge_all(sets).completion_provider == spec_first_value(
            sets.map_values(|v: CapabilitySetView| v.completion_provider),
        ),
        spec_merge_all(sets).diagnostic_provider == spec_first_value(
            sets.map_values(|v: CapabilitySetView| v.diagnostic_provider),
        ),
    decreases sets.len(),
{
    if sets.len() == 0 {
        assert(sets.map_values(|v: CapabilitySetView| v.position_encoding).len() == 0);
        assert(sets.map_values(|v: CapabilitySetView| v.text_document_sync).len() == 0);
        assert(sets.map_values(|v: CapabilitySetView| v.hover_provider).len() == 0);
        assert(sets.map_values(|v: CapabilitySetView| v.completion_provider).len() == 0);
        assert(sets.map_values(|v: CapabilitySetView| v.diagnostic_provider).len() == 0);
    } else {
        lemma_merge_all_first_wins(sets.skip(1));
        assert(sets.map_values(|v: CapabilitySetView| v.position_encoding).skip(1) =~= sets.skip(
            1,
        ).map_values(|v: CapabilitySetView| v.position_encoding));
        assert(sets.map_values(|v: CapabilitySetView| v.text_document_sync).skip(1) =~= sets.skip(
            1,
        ).map_values(|v: CapabilitySetView| v.text_document_sync));
        assert(sets.map_values(|v: CapabilitySetView| v.hover_provider).skip(1) =~= sets.skip(
            1,
        ).map_values(|v: CapabilitySetView| v.hover_provider));
        assert(sets.map_values(|v: CapabilitySetView| v.completion_provider).skip(1) =~= sets.skip(
            1,
        ).map_values(|v: CapabilitySetView| v.completion_provider));
        assert(sets.map_values(|v: CapabilitySetView| v.diagnostic_provider).skip(1) =~= sets.skip(
            1,
        ).map_values(|v: CapabilitySetView| v.diagnostic_provider));
    }
}

impl CapabilitySet {
    /// The set with every slot absent.
    pub fn empty() -> (r: CapabilitySet)
        ensures
            r@ == spec_empty_caps(),
    {
        CapabilitySet {
            position_encoding: None,
            text_document_sync: None,
            hover_provider: None,
            completion_provider: None,
            diagnostic_provider: None,
        }
    }
}

fn clone_opt(o: &Option<String>) -> (r: Option<String>)
    ensures
        opt_view(r) == opt_view(*o),
{
    match o {
        Some(s) => Some(s.clone()),
        None => None,
    }
}

fn merge_field(a: &Option<String>, b: &Option<String>) -> (r: Option<String>)
    ensures
        opt_view(r) == spec_merge_field(opt_view(*a), opt_view(*b)),
{
    match a {
        Some(s) => Some(s.clone()),
        None => clone_opt(b),
    }
}

/// Slot-wise merge of two sets, the first one winning every conflict.
pub fn merge(a: &CapabilitySet, b: &CapabilitySet) -> (r: CapabilitySet)
    ensures
        r@ == spec_merge(a@, b@),
{
    CapabilitySet {
        position_encoding: merge_field(&a.position_encoding, &b.position_encoding),
        text_document_sync: merge_field(&a.text_document_sync, &b.text_document_sync),
        hover_provider: merge_field(&a.hover_provider, &b.hover_provider),
        completion_provider: merge_field(&a.completion_provider, &b.completion_provider),
        diagnostic_provider: merge_field(&a.diagnostic_provider, &b.diagnostic_provider),
    }
}

proof fn lemma_merge_empty_left(b: CapabilitySetView)
    ensures
        spec_merge(spec_empty_caps(), b) == b,
{
}

proof fn lemma_merge_assoc(a: CapabilitySetView, b: CapabilitySetView, c: CapabilitySetView)
    ensures
        spec_merge(spec_merge(a, b), c) == spec_merge(a, spec_merge(b, c)),
{
}

/// The merged capability set of all the given sets, earlier ones winning.
pub fn merge_all(sets: &Vec<CapabilitySet>) -> (r: CapabilitySet)
    ensures
        r@ == spec_merge_all(sets@.map_values(|s: CapabilitySet| s@)),
{
    let ghost views = sets@.map_values(|s: CapabilitySet| s@);
    let mut acc = CapabilitySet::empty();
    let mut i: usize = 0;
    proof {
        assert(views.skip(0) =~= views);
    }
    while i < sets.len()
        invariant
            0 <= i <= sets.len(),
            views == sets@.map_values(|s: CapabilitySet| s@),
            spec_merge_all(views) == spec_merge(acc@, spec_merge_all(views.skip(i as int))),
        decreases sets.len() - i,
    {
        proof {
            assert(views.skip(i as int).skip(1) =~= views.skip(i + 1));
            lemma_merge_assoc(acc@, views[i as int], spec_merge_all(views.skip(i + 1)));
        }
        acc = merge(&acc, &sets[i]);
        i = i + 1;
    }
    proof {
        assert(views.skip(i as int).len() == 0);
        lemma_merge_empty_left(spec_merge_all(views.skip(i as int)));
    }
    acc
}

} // verus!
