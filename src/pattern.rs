//! Patterns, position predicates and their application to bytes.
use vstd::prelude::*;

use crate::{BytePattern, PositionPredicate};

verus! {

/// Given a target byte, the pattern sets the bits selected by `mask` to the
/// corresponding bits of `value` and leaves the other bits unchanged.
#[non_exhaustive]
#[derive(Clone, Copy, Debug)]
pub struct Pattern {
    pub value: u8,
    pub mask: u8,
}

impl Pattern {
    /// Creates a pattern that replaces the whole byte by `value` (mask `0xFF`).
    pub fn new(value: u8) -> (r: Pattern)
        ensures
            r.value == value,
            r.mask == 0xFF,
    {
        Pattern { value, mask: 0xFF }
    }

    /// Sets the mask, keeping the value.
    pub fn with_mask(self, mask: u8) -> (r: Pattern)
        ensures
            r.value == self.value,
            r.mask == mask,
    {
        Pattern { value: self.value, mask }
    }
}

impl BytePattern for Pattern {
    open spec fn applied(&self, value: u8) -> u8 {
        (self.mask & self.value) | (!self.mask & value)
    }

    fn eval(&self, value: u8) -> (r: u8) {
        (self.mask & self.value) | (!self.mask & value)
    }
}

/// Error raised when a predicate is given a structurally invalid parameter.
#[derive(Clone, Copy, Debug, PartialEq, Eq, Structural)]
pub enum ConfigError {
    /// A periodicity of zero: selected positions must be at least one byte apart.
    InvalidConfiguration,
}

/// Mathematical model of a [`Predicate`].
pub struct PredicateView {
    pub periodicity: nat,
    pub offset: nat,
    pub limit: Option<nat>,
}

impl PredicateView {
    /// `position` is at or after `offset`, a whole number of periods after it,
    /// and, when there is a limit, fewer than `limit` periods after it.
    pub open spec fn selects(self, position: int) -> bool {
        &&& position >= self.offset
        &&& (position - self.offset) % (self.periodicity as int) == 0
        &&& match self.limit {
            Some(limit) => (position - self.offset) / (self.periodicity as int) < limit,
            None => true,
        }
    }
}

/// Selects which bytes a pattern applies to, given their position.
#[derive(Clone, Copy, Debug)]
pub struct Predicate {
    /// Only match every `periodicity` bytes once the `offset` is reached.
    periodicity: usize,
    /// Only bytes with position >= `offset` match.
    offset: usize,
    /// If present, match at most `limit` bytes:
    /// `(position - offset) / periodicity < limit`.
    limit: Option<usize>,
}

impl View for Predicate {
    type V = PredicateView;

    closed spec fn view(&self) -> PredicateView {
        PredicateView {
            periodicity: self.periodicity as nat,
            offset: self.offset as nat,
            limit: match self.limit {
                Some(l) => Some(l as nat),
                None => None,
            },
        }
    }
}

impl Default for Predicate {
    /// Matches every byte: periodicity `1`, offset `0`, no limit.
    fn default() -> (r: Predicate)
        ensures
            r@ == (PredicateView { periodicity: 1, offset: 0, limit: None }),
    {
        Predicate { periodicity: 1, offset: 0, limit: None }
    }
}

impl Predicate {
    #[verifier::type_invariant]
    spec fn periodic(self) -> bool {
        self.periodicity >= 1
    }

    /// Creates a predicate that matches every byte: periodicity `1`,
    /// offset `0`, no limit.
    pub fn new() -> (r: Predicate)
        ensures
            r@ == (PredicateView { periodicity: 1, offset: 0, limit: None }),
    {
        Predicate::default()
    }

    /// Only every `periodicity`-th byte from the offset on matches.
    pub fn periodicity(&self) -> (r: usize)
        ensures
            r == self@.periodicity,
            r >= 1,
    {
        proof {
            use_type_invariant(self);
        }
        self.periodicity
    }

    /// Bytes before position `offset` never match.
    pub fn offset(&self) -> (r: usize)
        ensures
            r == self@.offset,
    {
        self.offset
    }

    /// The most bytes that match, if bounded.
    pub fn limit(&self) -> (r: Option<usize>)
        ensures
            r is Some <==> self@.limit is Some,
            r is Some ==> r->Some_0 == self@.limit->Some_0,
    {
        self.limit
    }

    /// Sets the periodicity; a periodicity of zero is rejected.
    pub fn with_periodicity(self, periodicity: usize) -> (r: Result<Predicate, ConfigError>)
        ensures
            match r {
                Ok(p) => periodicity >= 1 && p@ == (PredicateView {
                    periodicity: periodicity as nat,
                    ..self@
                }),
                Err(e) => periodicity == 0 && e == ConfigError::InvalidConfiguration,
            },
    {
        if periodicity == 0 {
            Err(ConfigError::InvalidConfiguration)
        } else {
            Ok(Predicate { periodicity, offset: self.offset, limit: self.limit })
        }
    }

    /// Sets the offset.
    pub fn with_offset(self, offset: usize) -> (r: Predicate)
        ensures
            r@ == (PredicateView { offset: offset as nat, ..self@ }),
    {
        proof {
            use_type_invariant(&self);
        }
        Predicate { periodicity: self.periodicity, offset, limit: self.limit }
    }

    /// Sets the limit.
    pub fn with_limit(self, limit: usize) -> (r: Predicate)
        ensures
            r@ == (PredicateView { limit: Some(limit as nat), ..self@ }),
    {
        proof {
            use_type_invariant(&self);
        }
        Predicate { periodicity: self.periodicity, offset: self.offset, limit: Some(limit) }
    }

    /// Removes the limit.
    pub fn with_no_limit(self) -> (r: Predicate)
        ensures
            r@ == (PredicateView { limit: None, ..self@ }),
    {
        proof {
            use_type_invariant(&self);
        }
        Predicate { periodicity: self.periodicity, offset: self.offset, limit: None }
    }
}

impl PositionPredicate for Predicate {
    open spec fn selects(&self, position: int) -> bool {
        self@.selects(position)
    }

    fn eval(&self, position: usize) -> (r: bool) {
        proof {
            use_type_invariant(self);
        }
        if position < self.offset {
            return false;
        }
        let distance = position - self.offset;
        let within_limit = match self.limit {
            Some(limit) => distance / self.periodicity < limit,
            None => true,
        };
        within_limit && distance % self.periodicity == 0
    }
}

/// The byte that `value` becomes at `position` under a ruleset: the rules are
/// folded left to right, each one whose predicate selects `position` applying
/// its pattern to the result of the rules before it.
pub open spec fn swap_value<P: BytePattern, Q: PositionPredicate>(
    swaps: Seq<(P, Q)>,
    position: int,
    value: u8,
) -> u8
    decreases swaps.len(),
{
    if swaps.len() == 0 {
        value
    } else {
        let earlier = swap_value(swaps.drop_last(), position, value);
        let rule = swaps.last();
        if rule.1.selects(position) {
            rule.0.applied(earlier)
        } else {
            earlier
        }
    }
}

/// `bytes` rewritten by a ruleset, the first of them standing at position
/// `start` of the stream.
pub open spec fn swapped_from<P: BytePattern, Q: PositionPredicate>(
    swaps: Seq<(P, Q)>,
    start: int,
    bytes: Seq<u8>,
) -> Seq<u8> {
    Seq::new(bytes.len(), |i: int| swap_value(swaps, start + i, bytes[i]))
}

/// Applies the ruleset `swaps` to the byte `value` found at `position`.
pub fn swap_byte<P: BytePattern, Q: PositionPredicate>(
    swaps: &[(P, Q)],
    position: usize,
    value: u8,
) -> (r: u8)
    ensures
        r == swap_value(swaps@, position as int, value),
{
    let mut current = value;
    let mut i: usize = 0;
    while i < swaps.len()
        invariant
            i <= swaps@.len(),
            current == swap_value(swaps@.take(i as int), position as int, value),
        decreases swaps@.len() - i,
    {
        let rule = &swaps[i];
        if rule.1.eval(position) {
            current = rule.0.eval(current);
        }
        proof {
            assert(swaps@.take(i + 1).drop_last() =~= swaps@.take(i as int));
        }
        i = i + 1;
    }
    proof {
        assert(swaps@.take(i as int) =~= swaps@);
    }
    current
}

/// Returns the bytes of `source` with the ruleset `swaps` applied, position
/// `0` being the first byte of `source`. `source` is left untouched; a single
/// byte can be computed on demand with [`swap_byte`].
pub fn swap_iter<P: BytePattern, Q: PositionPredicate>(source: &[u8], swaps: &[(P, Q)]) -> (r: Vec<
    u8,
>)
    ensures
        r@ == swapped_from(swaps@, 0, source@),
{
    let mut out: Vec<u8> = Vec::with_capacity(source.len());
    let mut position: usize = 0;
    while position < source.len()
        invariant
            position <= source@.len(),
            out@.len() == position,
            forall|j: int|
                0 <= j < position ==> out@[j] == swap_value(swaps@, j, source@[j]),
        decreases source@.len() - position,
    {
        out.push(swap_byte(swaps, position, source[position]));
        position = position + 1;
    }
    proof {
        assert(out@ =~= swapped_from(swaps@, 0, source@));
    }
    out
}

/// A full mask replaces the byte by the pattern's value; an empty mask leaves
/// the byte unchanged.
pub proof fn lemma_full_and_empty_masks(pattern: Pattern, value: u8)
    ensures
        pattern.mask == 0xFF ==> pattern.applied(value) == pattern.value,
        pattern.mask == 0 ==> pattern.applied(value) == value,
{
    let mask = pattern.mask;
    let v = pattern.value;
    assert(mask == 0xFF ==> (mask & v) | (!mask & value) == v) by (bit_vector);
    assert(mask == 0 ==> (mask & v) | (!mask & value) == value) by (bit_vector);
}

/// No position before the offset is ever selected.
pub proof fn lemma_before_offset(predicate: Predicate, position: int)
    requires
        0 <= position < predicate@.offset,
    ensures
        !predicate.selects(position),
{
}

/// With periodicity `2`, offset `1` and no limit, exactly the odd positions
/// are selected.
pub proof fn lemma_odd_positions(predicate: Predicate, position: int)
    requires
        predicate@ == (PredicateView { periodicity: 2, offset: 1, limit: None }),
        position >= 0,
    ensures
        predicate.selects(position) <==> position % 2 == 1,
{
}

/// With periodicity `2`, offset `3` and limit `2`, exactly positions `3` and
/// `5` are selected.
pub proof fn lemma_limited_positions(predicate: Predicate, position: int)
    requires
        predicate@ == (PredicateView { periodicity: 2, offset: 3, limit: Some(2) }),
        position >= 0,
    ensures
        predicate.selects(position) <==> (position == 3 || position == 5),
{
}

/// Of two rules that both select every position, the later one decides:
/// forcing all bits to one and then to zero gives zero bytes, and the other
/// order gives `0xFF` bytes.
pub proof fn lemma_last_rule_wins(ones: Pattern, zeros: Pattern, always: Predicate, input: Seq<u8>)
    requires
        ones.value == 0xFF,
        ones.mask == 0xFF,
        zeros.value == 0,
        zeros.mask == 0xFF,
        always@ == (PredicateView { periodicity: 1, offset: 0, limit: None }),
    ensures
        swapped_from(seq![(ones, always), (zeros, always)], 0, input) == Seq::new(
            input.len(),
            |i: int| 0u8,
        ),
        swapped_from(seq![(zeros, always), (ones, always)], 0, input) == Seq::new(
            input.len(),
            |i: int| 0xFFu8,
        ),
{
    let zeroing = seq![(ones, always), (zeros, always)];
    let filling = seq![(zeros, always), (ones, always)];
    assert forall|i: int| 0 <= i < input.len() implies swap_value(zeroing, i, input[i]) == 0u8
        && swap_value(filling, i, input[i]) == 0xFFu8 by {
        assert(always.selects(i));
        assert(zeroing.drop_last().last() == (ones, always));
        assert(filling.drop_last().last() == (zeros, always));
        assert(swap_value(zeroing.drop_last().drop_last(), i, input[i]) == input[i]);
        assert(swap_value(filling.drop_last().drop_last(), i, input[i]) == input[i]);
        lemma_full_and_empty_masks(ones, input[i]);
        lemma_full_and_empty_masks(zeros, ones.applied(input[i]));
        lemma_full_and_empty_masks(zeros, input[i]);
        lemma_full_and_empty_masks(ones, zeros.applied(input[i]));
        assert(swap_value(zeroing.drop_last(), i, input[i]) == ones.applied(input[i]));
        assert(swap_value(filling.drop_last(), i, input[i]) == zeros.applied(input[i]));
    }
    assert(swapped_from(zeroing, 0, input) =~= Seq::new(input.len(), |i: int| 0u8));
    assert(swapped_from(filling, 0, input) =~= Seq::new(input.len(), |i: int| 0xFFu8));
}

} // verus!
