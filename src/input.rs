use vstd::prelude::*;

verus! {

/// Number of buttons in one player's input.
pub const INPUT_KEYS_NUMBERS: usize = 12;

/// One tick of one player's input, one flag per button.
pub type RInput = [bool; INPUT_KEYS_NUMBERS];

/// The input used for a tick before anything has been received.
pub open spec fn neutral_input() -> RInput {
    [false, false, false, false, false, false, false, false, false, false, false, false]
}

/// What is known for `frame`: the received input, or else the input held over
/// from the nearest earlier tick (neutral before anything arrived).
pub open spec fn held_input(s: Seq<Option<RInput>>, frame: nat) -> RInput
    decreases frame,
{
    if frame < s.len() && s[frame as int] is Some {
        s[frame as int]->0
    } else if frame == 0 {
        neutral_input()
    } else {
        held_input(s, (frame - 1) as nat)
    }
}

/// `Ok` with the authoritative input when it was received for exactly `frame`,
/// else `Err` with the prediction.
pub open spec fn input_result(s: Seq<Option<RInput>>, frame: nat) -> Result<RInput, RInput> {
    if frame < s.len() && s[frame as int] is Some {
        Ok(s[frame as int]->0)
    } else {
        Err(held_input(s, frame))
    }
}

/// Whether `input` may be recorded for `frame`: the slot is empty or holds the
/// same value.
pub open spec fn accepts(s: Seq<Option<RInput>>, input: RInput, frame: nat) -> bool {
    frame < s.len() && s[frame as int] is Some ==> s[frame as int]->0 == input
}

/// The table after recording `input` for `frame`.
pub open spec fn inserted(s: Seq<Option<RInput>>, input: RInput, frame: nat) -> Seq<Option<RInput>> {
    let padded = if frame < s.len() {
        s
    } else {
        s + Seq::new((frame + 1 - s.len()) as nat, |k: int| None::<RInput>)
    };
    padded.update(frame as int, Some(input))
}

/// Opponent inputs received so far, indexed by tick. Entries are never
/// overwritten with a different value.
pub struct EnemyInputHolder {
    pub i: Vec<Option<RInput>>,
}

/// Whether two inputs press the same buttons.
pub fn same_input(a: &RInput, b: &RInput) -> (r: bool)
    ensures
        r == (*a == *b),
{
    let mut k: usize = 0;
    while k < INPUT_KEYS_NUMBERS
        invariant
            0 <= k <= INPUT_KEYS_NUMBERS,
            forall|j: int| 0 <= j < k ==> a@[j] == b@[j],
        decreases INPUT_KEYS_NUMBERS - k,
    {
        if a[k] != b[k] {
            proof {
                assert(a@[k as int] != b@[k as int]);
            }
            return false;
        }
        k += 1;
    }
    proof {
        assert(a@ =~= b@);
        vstd::array::axiom_array_ext_equal(*a, *b);
    }
    true
}

impl EnemyInputHolder {
    pub open spec fn view(&self) -> Seq<Option<RInput>> {
        self.i@
    }

    /// An empty table.
    pub fn new() -> (r: Self)
        ensures
            r.view() == Seq::<Option<RInput>>::empty(),
    {
        Self { i: Vec::new() }
    }

    /// The best available input for `count`: the received one, or the prediction.
    pub fn get(&self, count: usize) -> (r: RInput)
        ensures
            r == held_input(self.view(), count as nat),
    {
        match self.get_result(count) {
            Ok(x) => x,
            Err(x) => x,
        }
    }

    /// Whether `input` may be recorded for `frame` without contradicting what
    /// was received before.
    pub fn accepts(&self, input: &RInput, frame: usize) -> (r: bool)
        ensures
            r == accepts(self.view(), *input, frame as nat),
    {
        if frame < self.i.len() {
            match &self.i[frame] {
                Some(x) => same_input(x, input),
                None => true,
            }
        } else {
            true
        }
    }

    /// Records the authoritative input for `frame`, growing the table with
    /// empty slots as needed. Recording the same value twice changes nothing.
    pub fn insert(&mut self, input: RInput, frame: usize)
        requires
            frame < usize::MAX,
            accepts(old(self).view(), input, frame as nat),
        ensures
            final(self).view() == inserted(old(self).view(), input, frame as nat),
    {
        let ghost s0 = self.i@;
        while frame >= self.i.len()
            invariant
                frame < usize::MAX,
                s0.len() <= self.i@.len(),
                self.i@.len() > s0.len() ==> self.i@.len() <= frame + 1,
                self.i@ =~= s0 + Seq::new((self.i@.len() - s0.len()) as nat, |k: int| None::<RInput>),
            decreases frame + 1 - self.i.len(),
        {
            self.i.push(None);
        }
        self.i.set(frame, Some(input));
        proof {
            let padded = if (frame as nat) < s0.len() {
                s0
            } else {
                s0 + Seq::new((frame + 1 - s0.len()) as nat, |k: int| None::<RInput>)
            };
            if (frame as nat) < s0.len() {
                assert(old(self).i@.len() == s0.len());
            }
            assert(self.i@ =~= padded.update(frame as int, Some(input)));
        }
    }

    /// `Ok` with the input received for exactly `frame`, else `Err` with the
    /// input held over from the nearest earlier received tick.
    pub fn get_result(&self, frame: usize) -> (r: Result<RInput, RInput>)
        ensures
            r == input_result(self.view(), frame as nat),
    {
        if frame < self.i.len() {
            if let Some(x) = self.i[frame] {
                return Ok(x);
            }
        }
        let mut k: usize = frame;
        loop
            invariant
                k <= frame,
                held_input(self.view(), frame as nat) == held_input(self.view(), k as nat),
                !(k < self.view().len() && self.view()[k as int] is Some),
                !(frame < self.view().len() && self.view()[frame as int] is Some),
            decreases k,
        {
            if k == 0 {
                proof {
                    assert(held_input(self.view(), 0) == neutral_input());
                }
                return Err([false, false, false, false, false, false, false, false, false, false, false, false]);
            }
            k -= 1;
            if k < self.i.len() {
                if let Some(x) = self.i[k] {
                    proof {
                        assert(self.view()[k as int] == Some(x));
                        assert(held_input(self.view(), k as nat) == x);
                    }
                    return Err(x);
                }
            }
        }
    }
}

/// Recording the same input twice leaves the table as one recording does.
pub proof fn lemma_insert_idempotent(s: Seq<Option<RInput>>, x: RInput, t: nat)
    ensures
        accepts(inserted(s, x, t), x, t),
        inserted(inserted(s, x, t), x, t) == inserted(s, x, t),
{
    let once = inserted(s, x, t);
    assert(once.len() > t);
    assert(inserted(once, x, t) =~= once);
}

/// Once `x` is recorded for `t`, a different input for `t` is refused.
pub proof fn lemma_insert_conflict(s: Seq<Option<RInput>>, x: RInput, y: RInput, t: nat)
    requires
        x != y,
    ensures
        !accepts(inserted(s, x, t), y, t),
{
}

/// Packs an input into a bit mask, button `k` at bit `k`.
pub fn input_to_accum(inp: &RInput) -> (r: u16)
    ensures
        r as nat == accum_of(inp@, INPUT_KEYS_NUMBERS as nat),
{
    let mut inputaccum: u16 = 0;
    let mut a: usize = 0;
    while a < INPUT_KEYS_NUMBERS
        invariant
            0 <= a <= INPUT_KEYS_NUMBERS,
            inp@.len() == INPUT_KEYS_NUMBERS,
            inputaccum as nat == accum_of(inp@, a as nat),
            accum_of(inp@, a as nat) < pow2_nat(a as nat),
        decreases INPUT_KEYS_NUMBERS - a,
    {
        let bit: u16 = pow2_u16(a);
        proof {
            assert(accum_of(inp@, (a + 1) as nat) == accum_of(inp@, a as nat) + if inp@[a as int] { pow2_nat(a as nat) } else { 0 });
            assert(pow2_nat((a + 1) as nat) == 2 * pow2_nat(a as nat));
            lemma_pow2_bound(a as nat);
        }
        if inp[a] {
            inputaccum = inputaccum + bit;
        }
        a += 1;
    }
    inputaccum
}

/// `2^n`.
pub open spec fn pow2_nat(n: nat) -> nat
    decreases n,
{
    if n == 0 {
        1
    } else {
        2 * pow2_nat((n - 1) as nat)
    }
}

/// The bit mask of the first `n` buttons.
pub open spec fn accum_of(inp: Seq<bool>, n: nat) -> nat
    decreases n,
{
    if n == 0 {
        0
    } else {
        accum_of(inp, (n - 1) as nat) + if inp[n - 1] { pow2_nat((n - 1) as nat) } else { 0 }
    }
}

proof fn lemma_pow2_bound(n: nat)
    requires
        n < INPUT_KEYS_NUMBERS,
    ensures
        pow2_nat(n) <= 2048,
        pow2_nat(n + 1) == 2 * pow2_nat(n),
{
    reveal_with_fuel(pow2_nat, 13);
}

fn pow2_u16(a: usize) -> (r: u16)
    requires
        a < INPUT_KEYS_NUMBERS,
    ensures
        r as nat == pow2_nat(a as nat),
{
    let mut r: u16 = 1;
    let mut k: usize = 0;
    while k < a
        invariant
            k <= a,
            a < INPUT_KEYS_NUMBERS,
            r as nat == pow2_nat(k as nat),
        decreases a - k,
    {
        proof {
            lemma_pow2_bound(k as nat);
        }
        r = r * 2;
        k += 1;
    }
    r
}

} // verus!
