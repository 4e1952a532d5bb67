//! Running estimate of what the transcription and translation services cost.
//!
//! Amounts are whole nano-dollars (10^-9 USD).

use vstd::prelude::*;
use crate::text::{
    all_digits, decimal, digits_value, dot_index, find_dot, fixed_digits, is_digit,
    lemma_decimal_digits, lemma_dot_index_bounded, lemma_dot_index_of, lemma_fixed_digits,
    parse_decimal_u128, pow10, push_char, push_decimal, push_fixed_digits,
};

verus! {

/// Milliseconds in one minute.
pub const MS_PER_MINUTE: u64 = 60_000;

/// Tokens in the unit that translation prices are quoted in.
pub const TOKENS_PER_PRICE_UNIT: u64 = 1_000_000;

/// Transcription price per minute of audio: 0.006 USD.
pub const TRANSCRIPTION_PRICE_PER_MINUTE: u64 = 6_000_000;

/// Translation prices per million input and output tokens for a model name;
/// zero for a model without a known price.
pub open spec fn model_prices(model: Seq<char>) -> (u64, u64) {
    if model == "gpt-4o"@ || model == "gpt-4o-2024-05-13"@ {
        (5_000_000_000, 15_000_000_000)
    } else if model == "gpt-4o-2024-08-06"@ {
        (2_500_000_000, 10_000_000_000)
    } else if model == "gpt-4o-mini"@ || model == "gpt-4o-mini-2024-07-18"@ {
        (150_000_000, 600_000_000)
    } else {
        (0, 0)
    }
}

/// Cost of transcribing `duration_ms` of audio at a per-minute price that is a
/// whole number of nano-dollars per millisecond.
pub open spec fn transcription_cost(price_per_minute: u64, duration_ms: u64) -> int {
    duration_ms * (price_per_minute / MS_PER_MINUTE) as int
}

/// Cost of a translation with the given token counts, at per-million prices
/// that are whole numbers of nano-dollars per token.
pub open spec fn translation_cost(
    input_price: u64,
    output_price: u64,
    input_tokens: usize,
    output_tokens: usize,
) -> int {
    input_tokens * (input_price / TOKENS_PER_PRICE_UNIT) as int + output_tokens * (output_price
        / TOKENS_PER_PRICE_UNIT) as int
}

/// The token count estimated for a text: a quarter of its characters.
pub open spec fn token_estimate(text: Seq<char>) -> nat {
    text.len() / 4
}

/// `a + b`, or `u128::MAX` where the sum does not fit.
pub open spec fn sat_add_u128(a: u128, b: u128) -> u128 {
    if a + b <= u128::MAX {
        (a + b) as u128
    } else {
        u128::MAX
    }
}

/// The prices and running total, as plain values.
pub struct LedgerState {
    pub transcription_price_per_minute: u64,
    pub input_price_per_million: u64,
    pub output_price_per_million: u64,
    pub total_cost: u128,
}

/// Prices per provider model and the running total spent.
pub struct PriceEstimator {
    whisper_price_per_minute: u64,
    gpt_input_price_per_million_tokens: u64,
    gpt_output_price_per_million_tokens: u64,
    /// Everything spent so far, in nano-dollars.
    pub total_cost: u128,
}

impl View for PriceEstimator {
    type V = LedgerState;

    closed spec fn view(&self) -> LedgerState {
        LedgerState {
            transcription_price_per_minute: self.whisper_price_per_minute,
            input_price_per_million: self.gpt_input_price_per_million_tokens,
            output_price_per_million: self.gpt_output_price_per_million_tokens,
            total_cost: self.total_cost,
        }
    }
}

/// Whether two texts hold the same characters.
fn same_text(a: &str, b: &str) -> (r: bool)
    ensures
        r == (a@ == b@),
{
    a.to_owned() == b.to_owned()
}

/// Estimated token count of a text: a quarter of its characters.
pub fn estimate_tokens(text: &str) -> (r: usize)
    ensures
        r == token_estimate(text@),
{
    text.unicode_len() / 4
}

impl PriceEstimator {
    /// Well-formed: every price is a whole number of nano-dollars per
    /// millisecond of audio or per token, so costs are exact.
    pub open spec fn wf(&self) -> bool {
        &&& self@.transcription_price_per_minute % MS_PER_MINUTE == 0
        &&& self@.input_price_per_million % TOKENS_PER_PRICE_UNIT == 0
        &&& self@.output_price_per_million % TOKENS_PER_PRICE_UNIT == 0
    }

    /// The estimator for a translation model, resuming from the persisted
    /// running total `total_cost`.
    pub fn new(model: &str, total_cost: u128) -> (r: PriceEstimator)
        ensures
            r.wf(),
            r@ == (LedgerState {
                transcription_price_per_minute: TRANSCRIPTION_PRICE_PER_MINUTE,
                input_price_per_million: model_prices(model@).0,
                output_price_per_million: model_prices(model@).1,
                total_cost,
            }),
    {
        let (input_price, output_price): (u64, u64) = if same_text(model, "gpt-4o") || same_text(
            model,
            "gpt-4o-2024-05-13",
        ) {
            (5_000_000_000, 15_000_000_000)
        } else if same_text(model, "gpt-4o-2024-08-06") {
            (2_500_000_000, 10_000_000_000)
        } else if same_text(model, "gpt-4o-mini") || same_text(model, "gpt-4o-mini-2024-07-18") {
            (150_000_000, 600_000_000)
        } else {
            (0, 0)
        };
        PriceEstimator {
            whisper_price_per_minute: TRANSCRIPTION_PRICE_PER_MINUTE,
            gpt_input_price_per_million_tokens: input_price,
            gpt_output_price_per_million_tokens: output_price,
            total_cost,
        }
    }

    /// Cost of transcribing `duration_ms` milliseconds of audio.
    pub fn estimate_transcription_cost(&self, duration_ms: u64) -> (r: u128)
        ensures
            r == transcription_cost(self@.transcription_price_per_minute, duration_ms),
    {
        let per_ms = (self.whisper_price_per_minute / MS_PER_MINUTE) as u128;
        assert(duration_ms as int * per_ms <= u64::MAX as int * u64::MAX as int) by (nonlinear_arith)
            requires
                duration_ms <= u64::MAX,
                per_ms <= u64::MAX,
        ;
        duration_ms as u128 * per_ms
    }

    /// Cost of a translation that read `input_tokens` and wrote `output_tokens`.
    pub fn estimate_translation_cost(&self, input_tokens: usize, output_tokens: usize) -> (r: u128)
        ensures
            r == translation_cost(
                self@.input_price_per_million,
                self@.output_price_per_million,
                input_tokens,
                output_tokens,
            ),
    {
        let in_rate = (self.gpt_input_price_per_million_tokens / TOKENS_PER_PRICE_UNIT) as u128;
        let out_rate = (self.gpt_output_price_per_million_tokens / TOKENS_PER_PRICE_UNIT) as u128;
        assert(input_tokens as int * in_rate <= u64::MAX as int * 0x2000_0000_0000) by (nonlinear_arith)
            requires
                input_tokens <= u64::MAX,
                in_rate <= 0x2000_0000_0000,
        ;
        assert(output_tokens as int * out_rate <= u64::MAX as int * 0x2000_0000_0000) by (nonlinear_arith)
            requires
                output_tokens <= u64::MAX,
                out_rate <= 0x2000_0000_0000,
        ;
        input_tokens as u128 * in_rate + output_tokens as u128 * out_rate
    }

    /// The running total as it is persisted: dollars with nine decimals.
    pub fn total_cost_text(&self) -> (r: String)
        ensures
            r@ == total_text(self@.total_cost as nat),
    {
        let mut r = String::new();
        push_decimal(&mut r, self.total_cost / NANOS_PER_DOLLAR);
        push_char(&mut r, '.');
        push_fixed_digits(&mut r, self.total_cost % NANOS_PER_DOLLAR, FRACTION_DIGITS);
        r
    }

    /// Cost of handling one utterance: transcribing `duration_ms` of audio,
    /// then translating with `prompt` and receiving `response`, their token
    /// counts estimated from their lengths.
    pub fn operation_cost(&self, duration_ms: u64, prompt: &str, response: &str) -> (r: u128)
        ensures
            r == transcription_cost(self@.transcription_price_per_minute, duration_ms)
                + translation_cost(
                self@.input_price_per_million,
                self@.output_price_per_million,
                token_estimate(prompt@) as usize,
                token_estimate(response@) as usize,
            ),
    {
        let audio = self.estimate_transcription_cost(duration_ms);
        let text = self.estimate_translation_cost(estimate_tokens(prompt), estimate_tokens(response));
        proof {
            let p = (self.whisper_price_per_minute / MS_PER_MINUTE) as int;
            let a = (self.gpt_input_price_per_million_tokens / TOKENS_PER_PRICE_UNIT) as int;
            let b = (self.gpt_output_price_per_million_tokens / TOKENS_PER_PRICE_UNIT) as int;
            let i = token_estimate(prompt@) as int;
            let o = token_estimate(response@) as int;
            assert(duration_ms * p <= 0x1_0000_0000_0000_0000 * 0x2_0000_0000_0000) by (nonlinear_arith)
                requires
                    0 <= p <= 0x2_0000_0000_0000,
                    0 <= duration_ms <= u64::MAX,
            ;
            assert(i * a + o * b <= 2 * 0x1_0000_0000_0000_0000 * 0x2000_0000_0000) by (nonlinear_arith)
                requires
                    0 <= a <= 0x2000_0000_0000,
                    0 <= b <= 0x2000_0000_0000,
                    0 <= i <= u64::MAX,
                    0 <= o <= u64::MAX,
            ;
        }
        audio + text
    }

    /// Adds the cost of one operation to the running total.
    pub fn add_cost(&mut self, cost: u128)
        ensures
            final(self)@ == (LedgerState { total_cost: sat_add_u128(old(self)@.total_cost, cost), ..old(self)@ }),
    {
        self.total_cost = self.total_cost.saturating_add(cost);
    }
}

/// Nano-dollars in one dollar.
pub const NANOS_PER_DOLLAR: u128 = 1_000_000_000;

/// Decimals of a dollar amount that are kept.
pub const FRACTION_DIGITS: usize = 9;

/// The persisted text of a total: whole dollars, `.`, and nine decimals.
pub open spec fn total_text(total: nat) -> Seq<char> {
    decimal(total / NANOS_PER_DOLLAR as nat) + seq!['.'] + fixed_digits(
        total % NANOS_PER_DOLLAR as nat,
        FRACTION_DIGITS as nat,
    )
}

/// The first nine decimals of a fraction, zero-padded.
pub open spec fn nine_decimals(f: Seq<char>) -> Seq<char> {
    Seq::new(
        FRACTION_DIGITS as nat,
        |j: int|
            if j < f.len() {
                f[j]
            } else {
                '0'
            },
    )
}

/// The total, in nano-dollars, that a text of dollars spells: digits,
/// optionally followed by `.` and more digits; decimals past the ninth are
/// cut off. `None` for any other text.
pub open spec fn parse_total(s: Seq<char>) -> Option<nat> {
    let d = dot_index(s) as int;
    let whole = s.take(d);
    let fraction = if d < s.len() {
        s.skip(d + 1)
    } else {
        Seq::empty()
    };
    if whole.len() > 0 && all_digits(whole) && all_digits(fraction) {
        Some(digits_value(whole) * NANOS_PER_DOLLAR as nat + digits_value(nine_decimals(fraction)))
    } else {
        None
    }
}

/// Reads a persisted running total, such as `12.5` or `0.000123400`;
/// `None` when the text is not one or the total does not fit.
pub fn parse_total_cost(text: &str) -> (r: Option<u128>)
    ensures
        r is Some <==> (parse_total(text@) is Some && parse_total(text@)->0 <= u128::MAX),
        r matches Some(v) ==> parse_total(text@) == Some(v as nat),
{
    let ghost s = text@;
    let n = text.unicode_len();
    let d = find_dot(text);
    proof {
        lemma_dot_index_bounded(s);
    }
    let whole_text = text.substring_char(0, d);
    assert(whole_text@ =~= s.take(d as int));
    let whole = match parse_decimal_u128(whole_text) {
        Some(v) => v,
        None => {
            return None;
        },
    };
    let start = if d < n {
        d + 1
    } else {
        n
    };
    let ghost fraction = if d < n {
        s.skip(d + 1)
    } else {
        Seq::<char>::empty()
    };
    assert(fraction =~= s.skip(start as int));
    let mut k: usize = start;
    while k < n
        invariant
            s == text@,
            n == s.len(),
            d == dot_index(s),
            d <= n,
            fraction == (if d < n {
                s.skip(d + 1)
            } else {
                Seq::<char>::empty()
            }),
            start <= k <= n,
            fraction =~= s.skip(start as int),
            forall|j: int| start <= j < k ==> is_digit(#[trigger] s[j]),
        decreases n - k,
    {
        let c = text.get_char(k);
        if !('0' <= c && c <= '9') {
            assert(fraction[k - start] == s[k as int]);
            assert(!is_digit(fraction[k - start]));
            assert(!all_digits(fraction));
            assert(parse_total(s) is None);
            return None;
        }
        k = k + 1;
    }
    assert(all_digits(fraction)) by {
        assert forall|i: int| 0 <= i < fraction.len() implies is_digit(#[trigger] fraction[i]) by {
            assert(fraction[i] == s[start + i]);
        }
    }
    let ghost nine = nine_decimals(fraction);
    let mut cents: u128 = 0;
    let mut j: usize = 0;
    proof {
        reveal_with_fuel(pow10, 10);
        assert(pow10(9) == 1_000_000_000);
    }
    while j < FRACTION_DIGITS
        invariant
            s == text@,
            n == s.len(),
            start <= n,
            fraction =~= s.skip(start as int),
            all_digits(fraction),
            nine == nine_decimals(fraction),
            j <= FRACTION_DIGITS,
            cents == digits_value(nine.take(j as int)),
            cents < pow10(j as nat),
            pow10(9) == 1_000_000_000,
        decreases FRACTION_DIGITS - j,
    {
        let c = if j < n - start {
            text.get_char(start + j)
        } else {
            '0'
        };
        assert(c == nine[j as int]) by {
            if j < n - start {
                assert(fraction[j as int] == s[start + j]);
            }
        }
        assert(is_digit(c));
        proof {
            assert(nine.take(j + 1).drop_last() =~= nine.take(j as int));
            lemma_pow10_upto_nine(j as nat);
        }
        cents = cents * 10 + (c as u32 - '0' as u32) as u128;
        j = j + 1;
    }
    assert(nine.take(9) =~= nine);
    let total = match whole.checked_mul(NANOS_PER_DOLLAR) {
        Some(w) => w.checked_add(cents),
        None => None,
    };
    total
}

proof fn lemma_pow10_upto_nine(j: nat)
    requires
        j < 9,
    ensures
        pow10(j) <= 100_000_000,
{
    reveal_with_fuel(pow10, 10);
}

/// The persisted text of any total reads back as that total.
pub proof fn lemma_total_text_round_trip(total: nat)
    ensures
        parse_total(total_text(total)) == Some(total),
{
    let q = total / NANOS_PER_DOLLAR as nat;
    let r = total % NANOS_PER_DOLLAR as nat;
    let dq = decimal(q);
    let f = fixed_digits(r, FRACTION_DIGITS as nat);
    let t = total_text(total);
    lemma_decimal_digits(q);
    lemma_fixed_digits(r, FRACTION_DIGITS as nat);
    reveal_with_fuel(pow10, 10);
    assert(pow10(9) == 1_000_000_000);
    assert(t[dq.len() as int] == '.');
    assert forall|j: int| 0 <= j < dq.len() implies t[j] != '.' by {
        assert(t[j] == dq[j]);
        assert(is_digit(dq[j]));
    }
    lemma_dot_index_of(t, dq.len() as int);
    assert(t.take(dq.len() as int) =~= dq);
    assert(t.skip(dq.len() as int + 1) =~= f);
    assert(nine_decimals(f) =~= f);
    assert(r < 1_000_000_000);
    assert(pow10(FRACTION_DIGITS as nat) == 1_000_000_000);
    assert(r % 1_000_000_000 == r);
    assert(digits_value(f) == r);
    assert(digits_value(dq) == q);
    assert(total == q * 1_000_000_000 + r);
    assert(dot_index(t) == dq.len());
    assert(all_digits(f));
}

/// Sum of a sequence of costs.
pub open spec fn sum_costs(costs: Seq<u128>) -> int
    decreases costs.len(),
{
    if costs.len() == 0 {
        0
    } else {
        sum_costs(costs.drop_last()) + costs.last()
    }
}

/// The running total after adding each cost in turn to `start`.
pub open spec fn total_after(start: u128, costs: Seq<u128>) -> u128
    decreases costs.len(),
{
    if costs.len() == 0 {
        start
    } else {
        sat_add_u128(total_after(start, costs.drop_last()), costs.last())
    }
}

/// After a series of additions the running total is the starting total plus
/// the sum of the costs, and the persisted text of that total reads back as
/// the same total after a restart.
pub proof fn lemma_total_is_sum_and_persists(start: u128, costs: Seq<u128>)
    requires
        start + sum_costs(costs) <= u128::MAX,
    ensures
        total_after(start, costs) == start + sum_costs(costs),
        parse_total(total_text(total_after(start, costs) as nat)) == Some(
            total_after(start, costs) as nat,
        ),
    decreases costs.len(),
{
    if costs.len() > 0 {
        lemma_total_is_sum_and_persists(start, costs.drop_last());
    }
    lemma_total_text_round_trip(total_after(start, costs) as nat);
}

/// Costs grow linearly: nothing costs nothing, and the cost of two pieces of
/// audio, or of two translations, is the sum of their costs.
pub proof fn lemma_costs_linear(
    e: LedgerState,
    d1: u64,
    d2: u64,
    i1: usize,
    i2: usize,
    o1: usize,
    o2: usize,
)
    requires
        d1 + d2 <= u64::MAX,
        i1 + i2 <= usize::MAX,
        o1 + o2 <= usize::MAX,
    ensures
        transcription_cost(e.transcription_price_per_minute, 0) == 0,
        translation_cost(e.input_price_per_million, e.output_price_per_million, 0, 0) == 0,
        transcription_cost(e.transcription_price_per_minute, (d1 + d2) as u64) == transcription_cost(
            e.transcription_price_per_minute,
            d1,
        ) + transcription_cost(e.transcription_price_per_minute, d2),
        translation_cost(
            e.input_price_per_million,
            e.output_price_per_million,
            (i1 + i2) as usize,
            (o1 + o2) as usize,
        ) == translation_cost(e.input_price_per_million, e.output_price_per_million, i1, o1)
            + translation_cost(e.input_price_per_million, e.output_price_per_million, i2, o2),
{
    let p = (e.transcription_price_per_minute / MS_PER_MINUTE) as int;
    let a = (e.input_price_per_million / TOKENS_PER_PRICE_UNIT) as int;
    let b = (e.output_price_per_million / TOKENS_PER_PRICE_UNIT) as int;
    assert((d1 + d2) * p == d1 * p + d2 * p) by (nonlinear_arith);
    assert((i1 + i2) * a == i1 * a + i2 * a) by (nonlinear_arith);
    assert((o1 + o2) * b == o1 * b + o2 * b) by (nonlinear_arith);
}

} // verus!
