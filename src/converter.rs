//! The rate-conversion driver.
//!
//! The playback cursor `t` is the position of the next output frame, in
//! input frames, past the newest frame handed to the interpolator. It starts
//! at 0 and advances by `input_rate / output_rate` for every output frame.
//! Rates are whole numbers, so the cursor is kept exactly as the numerator of
//! a fraction over `output_rate`. Only the ratio of the two rates matters: a
//! fractional rate such as 44100 * 1000 / 1001 frames per second is given by
//! scaling both rates by 1001.
//!
//! Output frame `k` stands for the stretch of input from `k * input_rate /
//! output_rate` to `(k + 1) * input_rate / output_rate`; it is produced only
//! when that whole stretch lies within the input, so `len` input frames give
//! `floor(len * output_rate / input_rate)` output frames.
//!
//! Each call of `next_step` makes one decision: while `t >= 1` an input frame
//! must be pushed into the interpolator's history (`Step::Pull`); otherwise
//! an output frame is interpolated at offset `t` (`Step::Emit`). Once no
//! further output frame fits within the input, the frames that are left are
//! still pulled, and then the conversion is over (`Step::Done`). The
//! interpolator starts on silent history, so the first output frame is taken
//! at offset 0 before any input frame is consumed.
use vstd::prelude::*;

verus! {

/// What the caller does next to drive a conversion.
#[derive(Clone, Copy, Debug, PartialEq, Eq, Structural)]
pub enum Step {
    /// Push the next input frame into the interpolator.
    Pull,
    /// Interpolate one output frame at the fractional offset
    /// `numer / denom`, which lies in `[0, 1)`.
    Emit { numer: u32, denom: u32 },
    /// The input is exhausted: the output ends here.
    Done,
}

/// Why a converter could not be built.
#[derive(Clone, Copy, Debug, PartialEq, Eq, Structural)]
pub enum RateError {
    /// A rate of zero frames per second.
    ZeroRate,
}

/// The state of one conversion run.
pub struct RateConverter {
    input_rate: u32,
    output_rate: u32,
    /// The playback cursor times `output_rate`.
    cursor: u64,
    /// Input frames pushed so far.
    consumed: Ghost<nat>,
    /// Input frames that the cursor has moved past.
    advanced: Ghost<nat>,
    /// Output frames emitted so far.
    produced: Ghost<nat>,
}

/// Number of output frames of a conversion of `len` input frames: the
/// output frames `k` with `(k + 1) * input_rate <= len * output_rate`, that
/// is `floor(len * output_rate / input_rate)`.
pub open spec fn output_len(len: nat, input_rate: nat, output_rate: nat) -> nat
    recommends
        input_rate > 0,
{
    (len * output_rate / input_rate) as nat
}

impl RateConverter {
    pub closed spec fn input_rate(&self) -> nat {
        self.input_rate as nat
    }

    pub closed spec fn output_rate(&self) -> nat {
        self.output_rate as nat
    }

    /// The playback cursor times `output_rate`.
    pub closed spec fn cursor(&self) -> nat {
        self.cursor as nat
    }

    /// Input frames pushed so far.
    pub closed spec fn consumed(&self) -> nat {
        self.consumed@
    }

    /// Input frames that the cursor has moved past; the frames pushed after
    /// the last output frame are not among them.
    pub closed spec fn advanced(&self) -> nat {
        self.advanced@
    }

    /// Output frames emitted so far.
    pub closed spec fn produced(&self) -> nat {
        self.produced@
    }

    /// The cursor is where the emitted output frames have brought it, less
    /// one input frame per frame it moved past; it never runs more than one
    /// step past the newest frame.
    pub open spec fn wf(&self) -> bool {
        &&& self.input_rate() > 0
        &&& self.output_rate() > 0
        &&& self.cursor() < self.output_rate() + self.input_rate()
        &&& self.advanced() <= self.consumed()
        &&& self.produced() * self.input_rate() == self.advanced() * self.output_rate()
            + self.cursor()
    }

    /// A converter from `input_rate` to `output_rate`, with its cursor at 0
    /// and nothing consumed or emitted.
    pub fn new(input_rate: u32, output_rate: u32) -> (r: Result<RateConverter, RateError>)
        ensures
            input_rate == 0 || output_rate == 0 ==> r == Err::<RateConverter, RateError>(
                RateError::ZeroRate,
            ),
            input_rate > 0 && output_rate > 0 ==> (r matches Ok(c) && c.wf()
                && c.input_rate() == input_rate && c.output_rate() == output_rate
                && c.cursor() == 0 && c.consumed() == 0 && c.advanced() == 0
                && c.produced() == 0),
    {
        if input_rate == 0 || output_rate == 0 {
            return Err(RateError::ZeroRate);
        }
        let c = RateConverter {
            input_rate,
            output_rate,
            cursor: 0,
            consumed: Ghost(0),
            advanced: Ghost(0),
            produced: Ghost(0),
        };
        assert(c.produced() * c.input_rate() == c.advanced() * c.output_rate() + c.cursor())
            by (nonlinear_arith)
            requires
                c.produced() == 0,
                c.advanced() == 0,
                c.cursor() == 0,
        ;
        Ok(c)
    }

    /// Whether the next output frame lies at or past the newest input frame
    /// plus one, so that an input frame must be consumed first.
    pub fn needs_frame(&self) -> (r: bool)
        requires
            self.wf(),
        ensures
            r == (self.cursor() >= self.output_rate()),
    {
        self.cursor >= self.output_rate as u64
    }

    /// The next decision. `remaining` is the number of input frames that
    /// have not been pulled yet.
    pub fn next_step(&mut self, remaining: u64) -> (r: Step)
        requires
            old(self).wf(),
        ensures
            final(self).wf(),
            final(self).input_rate() == old(self).input_rate(),
            final(self).output_rate() == old(self).output_rate(),
            remaining == 0 ==> {
                &&& r == Step::Done
                &&& *final(self) == *old(self)
            },
            remaining > 0 && old(self).cursor() >= old(self).output_rate() ==> {
                &&& r == Step::Pull
                &&& final(self).cursor() == old(self).cursor() - old(self).output_rate()
                &&& final(self).consumed() == old(self).consumed() + 1
                &&& final(self).advanced() == old(self).advanced() + 1
                &&& final(self).produced() == old(self).produced()
            },
            remaining > 0 && old(self).cursor() < old(self).output_rate() && old(self).cursor()
                + old(self).input_rate() <= remaining * old(self).output_rate() ==> {
                &&& r == (Step::Emit {
                    numer: old(self).cursor() as u32,
                    denom: old(self).output_rate() as u32,
                })
                &&& final(self).cursor() == old(self).cursor() + old(self).input_rate()
                &&& final(self).consumed() == old(self).consumed()
                &&& final(self).advanced() == old(self).advanced()
                &&& final(self).produced() == old(self).produced() + 1
            },
            remaining > 0 && old(self).cursor() < old(self).output_rate() && old(self).cursor()
                + old(self).input_rate() > remaining * old(self).output_rate() ==> {
                &&& r == Step::Pull
                &&& final(self).cursor() == old(self).cursor()
                &&& final(self).consumed() == old(self).consumed() + 1
                &&& final(self).advanced() == old(self).advanced()
                &&& final(self).produced() == old(self).produced()
            },
    {
        if remaining == 0 {
            return Step::Done;
        }
        let out = self.output_rate as u64;
        if self.cursor >= out {
            self.cursor = self.cursor - out;
            self.consumed = Ghost(self.consumed@ + 1);
            self.advanced = Ghost(self.advanced@ + 1);
            proof {
                assert(self.produced@ * self.input_rate == self.advanced@ * self.output_rate
                    + self.cursor) by (nonlinear_arith)
                    requires
                        self.produced@ * self.input_rate == (self.advanced@ - 1)
                            * self.output_rate + self.cursor + self.output_rate,
                ;
            }
            return Step::Pull;
        }
        assert(remaining as u128 * self.output_rate as u128 <= u64::MAX as u128 * u32::MAX as u128)
            by (nonlinear_arith);
        let room = remaining as u128 * self.output_rate as u128;
        if self.cursor as u128 + self.input_rate as u128 <= room {
            let numer = self.cursor as u32;
            self.cursor = self.cursor + self.input_rate as u64;
            self.produced = Ghost(self.produced@ + 1);
            proof {
                assert(self.produced@ * self.input_rate == self.advanced@ * self.output_rate
                    + self.cursor) by (nonlinear_arith)
                    requires
                        (self.produced@ - 1) * self.input_rate + self.input_rate
                            == self.advanced@ * self.output_rate + self.cursor,
                ;
            }
            Step::Emit { numer, denom: self.output_rate }
        } else {
            self.consumed = Ghost(self.consumed@ + 1);
            Step::Pull
        }
    }
}

/// Number of output frames that a conversion of `input_len` input frames
/// from `input_rate` to `output_rate` yields, found by running the driver
/// to its end.
pub fn output_frame_count(input_len: u64, input_rate: u32, output_rate: u32) -> (r: Result<
    u64,
    RateError,
>)
    requires
        input_rate > 0 ==> output_len(input_len as nat, input_rate as nat, output_rate as nat)
            <= u64::MAX,
    ensures
        input_rate == 0 || output_rate == 0 ==> r == Err::<u64, RateError>(RateError::ZeroRate),
        input_rate > 0 && output_rate > 0 ==> r == Ok::<u64, RateError>(
            output_len(input_len as nat, input_rate as nat, output_rate as nat) as u64,
        ),
{
    let mut conv = match RateConverter::new(input_rate, output_rate) {
        Ok(c) => c,
        Err(e) => {
            return Err(e);
        },
    };
    let ghost li = input_len as nat;
    let ghost ir = input_rate as nat;
    let ghost or = output_rate as nat;
    let ghost sum = ir + or;
    let mut pulled: u64 = 0;
    let mut emitted: u64 = 0;
    loop
        invariant
            conv.wf(),
            conv.input_rate() == ir,
            conv.output_rate() == or,
            li == input_len,
            ir == input_rate,
            output_len(li, ir, or) <= u64::MAX,
            or == output_rate,
            ir > 0,
            sum == ir + or,
            pulled == conv.consumed(),
            emitted == conv.produced(),
            pulled <= input_len,
            emitted * ir <= li * or,
            conv.advanced() < conv.consumed() ==> conv.cursor() < or && li * or < (emitted + 1)
                * ir,
        decreases (input_len - pulled) * sum + (sum - conv.cursor()),
    {
        let ghost before = conv;
        let step = conv.next_step(input_len - pulled);
        match step {
            Step::Pull => {
                proof {
                    let a = before.advanced();
                    let c0 = before.cursor();
                    let rem = (li - pulled) as nat;
                    if before.cursor() < or {
                        // the last output frame is behind us: the frame is drained
                        if a == pulled as nat {
                            assert(li * or < (emitted + 1) * ir) by (nonlinear_arith)
                                requires
                                    emitted * ir == a * or + c0,
                                    c0 + ir > rem * or,
                                    rem == li - a,
                                    a <= li,
                            ;
                        }
                    }
                    assert((input_len - (pulled + 1)) * sum + (sum - conv.cursor())
                        < (input_len - pulled) * sum + (sum - c0)) by (nonlinear_arith)
                        requires
                            conv.cursor() <= c0,
                            c0 < sum,
                            sum > 0,
                            pulled < input_len,
                    ;
                }
                pulled = pulled + 1;
            },
            Step::Emit { .. } => {
                proof {
                    let a = before.advanced();
                    let c0 = before.cursor();
                    let rem = (li - pulled) as nat;
                    assert(a == pulled as nat) by {
                        if a < pulled as nat {
                            assert(li * or < (emitted + 1) * ir);
                            assert(c0 + ir > rem * or) by (nonlinear_arith)
                                requires
                                    emitted * ir == a * or + c0,
                                    li * or < (emitted + 1) * ir,
                                    rem == li - pulled,
                                    a < pulled,
                                    pulled <= li,
                            ;
                        }
                    }
                    assert((emitted + 1) * ir <= li * or) by (nonlinear_arith)
                        requires
                            emitted * ir == a * or + c0,
                            c0 + ir <= rem * or,
                            rem == li - a,
                            a <= li,
                    ;
                    let q = (li * or / ir) as nat;
                    assert((emitted + 1) as nat <= q) by (nonlinear_arith)
                        requires
                            (emitted + 1) * ir <= li * or,
                            ir > 0,
                            q == li * or / ir,
                    ;
                    assert(q <= u64::MAX);
                }
                emitted = emitted + 1;
            },
            Step::Done => {
                proof {
                    let a = conv.advanced();
                    if a == pulled as nat {
                        assert(li * or < (emitted + 1) * ir) by (nonlinear_arith)
                            requires
                                emitted * ir == a * or + conv.cursor(),
                                a == li,
                                ir > 0,
                        ;
                    }
                    lemma_output_len_exact(emitted as nat, li, ir, or);
                }
                return Ok(emitted);
            },
        }
    }
}

/// The output length is the largest `p` whose stretch of input,
/// `p * input_rate / output_rate` frames, fits within `len` frames.
proof fn lemma_output_len_exact(p: nat, len: nat, input_rate: nat, output_rate: nat)
    requires
        input_rate > 0,
        p * input_rate <= len * output_rate,
        len * output_rate < (p + 1) * input_rate,
    ensures
        p == output_len(len, input_rate, output_rate),
{
    let x = len * output_rate;
    let q = (x / input_rate) as nat;
    assert(q == p) by (nonlinear_arith)
        requires
            input_rate > 0,
            p * input_rate <= x,
            x < (p + 1) * input_rate,
            q == x / input_rate,
    ;
}

/// At equal rates every input frame gives exactly one output frame.
pub proof fn lemma_equal_rates_len(len: nat, rate: nat)
    requires
        rate > 0,
    ensures
        output_len(len, rate, rate) == len,
{
    assert(len * rate < (len + 1) * rate) by (nonlinear_arith)
        requires
            rate > 0,
    ;
    lemma_output_len_exact(len, len, rate, rate);
}

/// The output length is `floor(len * output_rate / input_rate)`: the output
/// frames cover at most `len` input frames, and one more would not fit.
pub proof fn lemma_output_len_bounds(len: nat, input_rate: nat, output_rate: nat)
    requires
        input_rate > 0,
        output_rate > 0,
    ensures
        output_len(len, input_rate, output_rate) * input_rate <= len * output_rate,
        len * output_rate < (output_len(len, input_rate, output_rate) + 1) * input_rate,
{
    let x = len * output_rate;
    let q = (x / input_rate) as nat;
    assert(q * input_rate <= x && x < (q + 1) * input_rate) by (nonlinear_arith)
        requires
            input_rate > 0,
            q == x / input_rate,
    ;
}

/// Whether two converters run at the same rate ratio with their cursors at
/// the same fractional position.
pub open spec fn in_step(a: RateConverter, b: RateConverter) -> bool {
    &&& a.input_rate() * b.output_rate() == b.input_rate() * a.output_rate()
    &&& a.cursor() * b.output_rate() == b.cursor() * a.output_rate()
}

/// The decisions of the driver depend on the rate ratio alone: two
/// converters in step take the same decision, emit at the same offset, and
/// are in step again after a pull or after an emit.
pub proof fn lemma_in_step_same_decision(a: RateConverter, b: RateConverter)
    requires
        a.wf(),
        b.wf(),
        in_step(a, b),
    ensures
        (a.cursor() >= a.output_rate()) == (b.cursor() >= b.output_rate()),
        a.cursor() >= a.output_rate() ==> (a.cursor() - a.output_rate()) * b.output_rate() == (
        b.cursor() - b.output_rate()) * a.output_rate(),
        a.cursor() < a.output_rate() ==> (a.cursor() + a.input_rate()) * b.output_rate() == (
        b.cursor() + b.input_rate()) * a.output_rate(),
{
    let (ai, ao, ac) = (a.input_rate(), a.output_rate(), a.cursor());
    let (bi, bo, bc) = (b.input_rate(), b.output_rate(), b.cursor());
    assert(ao > 0 && bo > 0 && ai > 0 && bi > 0);
    assert((ac >= ao) == (bc >= bo)) by (nonlinear_arith)
        requires
            ao > 0,
            bo > 0,
            ac * bo == bc * ao,
    ;
    if ac >= ao {
        assert((ac - ao) * bo == (bc - bo) * ao) by (nonlinear_arith)
            requires
                ac >= ao,
                bc >= bo,
                ac * bo == bc * ao,
        ;
    } else {
        assert((ac + ai) * bo == (bc + bi) * ao) by (nonlinear_arith)
            requires
                ai * bo == bi * ao,
                ac * bo == bc * ao,
        ;
    }
}

} // verus!
