use vstd::prelude::*;

use crate::text::string_of;

verus! {

/// Where the VM reads console input from (INPUT, INPUT$, INKEY$ ...).
pub trait InputProvider {
    fn read_line(&mut self) -> String;

    fn read_char(&mut self) -> Option<char>;
}

/// Number of entries in the mock input cycle.
pub const MOCK_CYCLE: usize = 1024;

/// The seed used in place of a zero seed.
pub const MOCK_DEFAULT_SEED: u64 = 0x9E3779B97F4A7C15;

/// The multiplier of the xorshift64* generator.
pub const MOCK_MULTIPLIER: u64 = 0x2545F4914F6CDD1D;

/// One xorshift64 step.
pub open spec fn xorshift(s: u64) -> u64 {
    let a = s ^ (s >> 12u64);
    let b = a ^ (a << 25u64);
    b ^ (b >> 27u64)
}

/// The generator state after `k` steps from `seed`.
pub open spec fn mock_state(seed: u64, k: nat) -> u64
    decreases k,
{
    if k == 0 {
        if seed == 0 { MOCK_DEFAULT_SEED } else { seed }
    } else {
        xorshift(mock_state(seed, (k - 1) as nat))
    }
}

/// The `i`-th choice (0 to 5) of the mock input cycle for `seed`.
pub open spec fn mock_choice(seed: u64, i: nat) -> u8 {
    (mock_state(seed, i + 1).wrapping_mul(MOCK_MULTIPLIER) % 6) as u8
}

/// The line answered for a choice.
pub open spec fn mock_line(v: u8) -> Seq<char> {
    if v == 0 {
        "Y"@
    } else if v == 1 {
        "N"@
    } else if v == 2 {
        "0"@
    } else if v == 3 {
        "1"@
    } else if v == 4 {
        "9"@
    } else {
        Seq::empty()
    }
}

/// The key answered for a choice (5 is Enter).
pub open spec fn mock_key(v: u8) -> char {
    if v == 0 {
        'Y'
    } else if v == 1 {
        'N'
    } else if v == 2 {
        '0'
    } else if v == 3 {
        '1'
    } else if v == 4 {
        '9'
    } else {
        '\r'
    }
}

/// A deterministic input provider for test runs: a fixed cycle of answers drawn
/// from a xorshift64* generator.
pub struct MockInputProvider {
    seq: Vec<u8>,
    idx: usize,
}

impl MockInputProvider {
    #[verifier::type_invariant]
    spec fn inv(self) -> bool {
        &&& self.seq.len() == MOCK_CYCLE
        &&& self.idx < MOCK_CYCLE
        &&& forall|i: int| 0 <= i < self.seq.len() ==> #[trigger] self.seq@[i] < 6
    }

    /// The position in the cycle of the next answer.
    pub closed spec fn position(&self) -> nat {
        self.idx as nat
    }

    /// The whole cycle of choices.
    pub closed spec fn choices(&self) -> Seq<u8> {
        self.seq@
    }

    pub fn new(seed: u64) -> (m: Self)
        ensures
            m.position() == 0,
            m.choices().len() == MOCK_CYCLE,
            forall|i: int| 0 <= i < MOCK_CYCLE ==> #[trigger] m.choices()[i] == mock_choice(seed, i as nat),
    {
        let mut s: u64 = if seed == 0 { MOCK_DEFAULT_SEED } else { seed };
        let mut seq: Vec<u8> = Vec::new();
        let mut k: usize = 0;
        while k < MOCK_CYCLE
            invariant
                k <= MOCK_CYCLE,
                s == mock_state(seed, k as nat),
                seq@.len() == k,
                forall|i: int| 0 <= i < k ==> #[trigger] seq@[i] == mock_choice(seed, i as nat),
                forall|i: int| 0 <= i < k ==> #[trigger] seq@[i] < 6,
            decreases MOCK_CYCLE - k,
        {
            s = s ^ (s >> 12u64);
            s = s ^ (s << 25u64);
            s = s ^ (s >> 27u64);
            let r = s.wrapping_mul(MOCK_MULTIPLIER);
            seq.push((r % 6) as u8);
            k += 1;
        }
        MockInputProvider { seq, idx: 0 }
    }

    /// The next choice of the cycle; the cycle starts again after its last entry.
    pub fn next_index(&mut self) -> (v: u8)
        ensures
            v == old(self).choices()[old(self).position() as int],
            v < 6,
            final(self).choices() == old(self).choices(),
            final(self).position() == (old(self).position() + 1) % (MOCK_CYCLE as nat),
    {
        proof { use_type_invariant(&*self); }
        let v = self.seq[self.idx];
        self.idx = (self.idx + 1) % self.seq.len();
        v
    }
}

impl InputProvider for MockInputProvider {
    /// The line for the next choice of the cycle: "Y", "N", "0", "1", "9" or "".
    fn read_line(&mut self) -> (s: String)
        ensures
            s@ == mock_line(old(self).choices()[old(self).position() as int]),
            final(self).choices() == old(self).choices(),
            final(self).position() == (old(self).position() + 1) % (MOCK_CYCLE as nat),
    {
        let v = self.next_index();
        if v == 0 {
            string_of("Y")
        } else if v == 1 {
            string_of("N")
        } else if v == 2 {
            string_of("0")
        } else if v == 3 {
            string_of("1")
        } else if v == 4 {
            string_of("9")
        } else {
            String::new()
        }
    }

    /// The key for the next choice of the cycle: 'Y', 'N', '0', '1', '9' or Enter.
    fn read_char(&mut self) -> (c: Option<char>)
        ensures
            c == Some(mock_key(old(self).choices()[old(self).position() as int])),
            final(self).choices() == old(self).choices(),
            final(self).position() == (old(self).position() + 1) % (MOCK_CYCLE as nat),
    {
        let v = self.next_index();
        let c = if v == 0 {
            'Y'
        } else if v == 1 {
            'N'
        } else if v == 2 {
            '0'
        } else if v == 3 {
            '1'
        } else if v == 4 {
            '9'
        } else {
            '\r'
        };
        Some(c)
    }
}

/// Two mock providers made from the same seed hold the same cycle, so from the same
/// position they give the same answers in the same order.
pub proof fn law_mock_is_deterministic(seed: u64, a: &MockInputProvider, b: &MockInputProvider)
    requires
        a.choices().len() == MOCK_CYCLE,
        b.choices().len() == MOCK_CYCLE,
        forall|i: int| 0 <= i < MOCK_CYCLE ==> #[trigger] a.choices()[i] == mock_choice(seed, i as nat),
        forall|i: int| 0 <= i < MOCK_CYCLE ==> #[trigger] b.choices()[i] == mock_choice(seed, i as nat),
    ensures
        a.choices() == b.choices(),
{
    assert(a.choices() =~= b.choices());
}

/// Every choice of a seed's cycle is one of six, so every answer is one of six lines and keys.
pub proof fn law_mock_answers_in_set(seed: u64, i: nat)
    ensures
        mock_choice(seed, i) < 6,
        mock_line(mock_choice(seed, i)) == "Y"@ || mock_line(mock_choice(seed, i)) == "N"@ || mock_line(mock_choice(seed, i)) == "0"@
            || mock_line(mock_choice(seed, i)) == "1"@ || mock_line(mock_choice(seed, i)) == "9"@ || mock_line(mock_choice(seed, i)).len() == 0,
        mock_key(mock_choice(seed, i)) == 'Y' || mock_key(mock_choice(seed, i)) == 'N' || mock_key(mock_choice(seed, i)) == '0'
            || mock_key(mock_choice(seed, i)) == '1' || mock_key(mock_choice(seed, i)) == '9' || mock_key(mock_choice(seed, i)) == '\r',
{
}

} // verus!
