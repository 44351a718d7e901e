use vstd::prelude::*;

verus! {

/// The four token counters as mathematical values.
pub struct Counters {
    pub input: nat,
    pub output: nat,
    pub cache_creation: nat,
    pub cache_read: nat,
}

impl Counters {
    pub open spec fn zero() -> Counters {
        Counters { input: 0, output: 0, cache_creation: 0, cache_read: 0 }
    }

    /// Pointwise addition.
    pub open spec fn plus(self, o: Counters) -> Counters {
        Counters {
            input: self.input + o.input,
            output: self.output + o.output,
            cache_creation: self.cache_creation + o.cache_creation,
            cache_read: self.cache_read + o.cache_read,
        }
    }

    /// All four counters together.
    pub open spec fn total(self) -> nat {
        self.input + self.output + self.cache_creation + self.cache_read
    }

    /// Everything but cache reads, which do not count against the budget.
    pub open spec fn billable(self) -> nat {
        self.input + self.output + self.cache_creation
    }

    /// Every counter of `self` is at most the same counter of `o`.
    pub open spec fn le(self, o: Counters) -> bool {
        &&& self.input <= o.input
        &&& self.output <= o.output
        &&& self.cache_creation <= o.cache_creation
        &&& self.cache_read <= o.cache_read
    }

    /// Each counter fits in a `u64`.
    pub open spec fn fits_u64(self) -> bool {
        &&& self.input <= u64::MAX
        &&& self.output <= u64::MAX
        &&& self.cache_creation <= u64::MAX
        &&& self.cache_read <= u64::MAX
    }
}

/// Token usage of one message, of a session or of any sum of them.
#[derive(Clone, Copy, Debug, PartialEq, Eq, Structural)]
pub struct TokenUsage {
    pub input_tokens: u64,
    pub output_tokens: u64,
    pub cache_creation_input_tokens: u64,
    pub cache_read_input_tokens: u64,
}

impl View for TokenUsage {
    type V = Counters;

    open spec fn view(&self) -> Counters {
        Counters {
            input: self.input_tokens as nat,
            output: self.output_tokens as nat,
            cache_creation: self.cache_creation_input_tokens as nat,
            cache_read: self.cache_read_input_tokens as nat,
        }
    }
}

impl Default for TokenUsage {
    fn default() -> (r: TokenUsage)
        ensures
            r@ == Counters::zero(),
    {
        TokenUsage::zero()
    }
}

impl TokenUsage {
    /// All counters at zero.
    pub fn zero() -> (r: TokenUsage)
        ensures
            r@ == Counters::zero(),
    {
        TokenUsage {
            input_tokens: 0,
            output_tokens: 0,
            cache_creation_input_tokens: 0,
            cache_read_input_tokens: 0,
        }
    }

    /// Input, cache-creation and cache-read tokens together.
    pub fn total_input(&self) -> (r: u64)
        requires
            self@.input + self@.cache_creation + self@.cache_read <= u64::MAX,
        ensures
            r == self@.input + self@.cache_creation + self@.cache_read,
    {
        self.input_tokens + self.cache_creation_input_tokens + self.cache_read_input_tokens
    }

    /// All four counters together.
    pub fn total(&self) -> (r: u64)
        requires
            self@.total() <= u64::MAX,
        ensures
            r == self@.total(),
    {
        self.total_input() + self.output_tokens
    }

    /// Tokens that count against the budget: cache reads are left out.
    pub fn billable(&self) -> (r: u64)
        requires
            self@.billable() <= u64::MAX,
        ensures
            r == self@.billable(),
    {
        self.input_tokens + self.output_tokens + self.cache_creation_input_tokens
    }

    /// Pointwise sum of two usages.
    pub fn add(&self, other: &TokenUsage) -> (r: TokenUsage)
        requires
            self@.plus(other@).fits_u64(),
        ensures
            r@ == self@.plus(other@),
    {
        TokenUsage {
            input_tokens: self.input_tokens + other.input_tokens,
            output_tokens: self.output_tokens + other.output_tokens,
            cache_creation_input_tokens: self.cache_creation_input_tokens
                + other.cache_creation_input_tokens,
            cache_read_input_tokens: self.cache_read_input_tokens + other.cache_read_input_tokens,
        }
    }

    /// Adds `other` into `self`.
    pub fn add_assign(&mut self, other: &TokenUsage)
        requires
            old(self)@.plus(other@).fits_u64(),
        ensures
            final(self)@ == old(self)@.plus(other@),
    {
        *self = self.add(other);
    }

    /// The sum of two usages, or `None` when a counter would not fit in a `u64`.
    pub fn checked_add(&self, other: &TokenUsage) -> (r: Option<TokenUsage>)
        ensures
            r is Some <==> self@.plus(other@).fits_u64(),
            r matches Some(s) ==> s@ == self@.plus(other@),
    {
        if self.input_tokens <= u64::MAX - other.input_tokens
            && self.output_tokens <= u64::MAX - other.output_tokens
            && self.cache_creation_input_tokens <= u64::MAX - other.cache_creation_input_tokens
            && self.cache_read_input_tokens <= u64::MAX - other.cache_read_input_tokens
        {
            Some(self.add(other))
        } else {
            None
        }
    }
}

/// The total of a sum is the sum of the totals, and addition of counters is
/// commutative, associative and has the all-zero counters as identity.
pub proof fn lemma_addition_laws(a: Counters, b: Counters, c: Counters)
    ensures
        a.plus(b).total() == a.total() + b.total(),
        a.plus(b).billable() == a.billable() + b.billable(),
        a.plus(b) == b.plus(a),
        a.plus(b).plus(c) == a.plus(b.plus(c)),
        a.plus(Counters::zero()) == a,
{
}

} // verus!
