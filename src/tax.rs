//! Pure tax calculation over a list of line items.

use vstd::prelude::*;

verus! {

/// One hundred percent, in basis points.
pub const FULL_RATE: u64 = 10000;

/// The largest sub-total, in paise, that one invoice may carry.
pub const MAX_AMOUNT: u64 = 1_000_000_000_000_000;

/// Paise in one whole currency unit.
pub const UNIT: u64 = 100;

/// One priced line of an invoice, as frozen at the time of sale.
#[derive(Clone, Copy, Debug, PartialEq, Eq, Structural)]
pub struct LineItem {
    pub product_id: u64,
    pub quantity: i64,
    /// Price of one unit, in paise.
    pub unit_price: i64,
    /// Discount, in basis points.
    pub discount_bp: u64,
    /// GST rate, in basis points.
    pub gst_rate_bp: u64,
}

/// Why a line item is not acceptable.
#[derive(Clone, Copy, Debug, PartialEq, Eq, Structural)]
pub enum LineProblem {
    NegativeQuantity,
    NegativePrice,
    DiscountOutOfRange,
    RateOutOfRange,
}

#[derive(Clone, Copy, Debug, PartialEq, Eq, Structural)]
pub enum TaxError {
    EmptyInvoice,
    /// The line at this index is not acceptable.
    InvalidLineItem(usize, LineProblem),
    /// The sub-total exceeds `MAX_AMOUNT`.
    AmountTooLarge,
}

/// The monetary totals of an invoice, in paise.
#[derive(Clone, Copy, Debug, PartialEq, Eq, Structural)]
pub struct Totals {
    pub sub_total: u64,
    pub taxable_amount: u64,
    pub cgst: u64,
    pub sgst: u64,
    pub igst: u64,
    pub total_tax: u64,
    pub round_off: i64,
    pub grand_total: u64,
}

/// `n / d` rounded to the nearest integer, ties to the even one.
pub open spec fn round_half_even(n: nat, d: nat) -> nat
    recommends
        d > 0,
{
    let q = n / d;
    let r = n % d;
    if 2 * r < d {
        q
    } else if 2 * r > d {
        q + 1
    } else if q % 2 == 0 {
        q
    } else {
        q + 1
    }
}

pub open spec fn problem_of(li: LineItem) -> Option<LineProblem> {
    if li.quantity < 0 {
        Some(LineProblem::NegativeQuantity)
    } else if li.unit_price < 0 {
        Some(LineProblem::NegativePrice)
    } else if li.discount_bp > FULL_RATE {
        Some(LineProblem::DiscountOutOfRange)
    } else if li.gst_rate_bp > FULL_RATE {
        Some(LineProblem::RateOutOfRange)
    } else {
        None
    }
}

pub open spec fn valid_line(li: LineItem) -> bool {
    problem_of(li) is None
}

pub open spec fn all_valid(s: Seq<LineItem>) -> bool {
    forall|i: int| 0 <= i < s.len() ==> valid_line(#[trigger] s[i])
}

/// Quantity times unit price, before discount.
pub open spec fn line_gross(li: LineItem) -> int {
    li.quantity * li.unit_price
}

/// The line's amount after discount, rounded to the paisa.
pub open spec fn line_taxable(li: LineItem) -> int {
    round_half_even((line_gross(li) * (FULL_RATE - li.discount_bp)) as nat, FULL_RATE as nat) as int
}

/// Half of the line's tax (the central or the state share), rounded to the paisa.
pub open spec fn line_half_tax(li: LineItem) -> int {
    round_half_even((line_taxable(li) * li.gst_rate_bp) as nat, 2 * FULL_RATE as nat) as int
}

/// The line's whole tax, rounded to the paisa.
pub open spec fn line_full_tax(li: LineItem) -> int {
    round_half_even((line_taxable(li) * li.gst_rate_bp) as nat, FULL_RATE as nat) as int
}

pub open spec fn sum_gross(s: Seq<LineItem>) -> int
    decreases s.len(),
{
    if s.len() == 0 {
        0
    } else {
        sum_gross(s.drop_last()) + line_gross(s.last())
    }
}

pub open spec fn sum_taxable(s: Seq<LineItem>) -> int
    decreases s.len(),
{
    if s.len() == 0 {
        0
    } else {
        sum_taxable(s.drop_last()) + line_taxable(s.last())
    }
}

pub open spec fn sum_half_tax(s: Seq<LineItem>) -> int
    decreases s.len(),
{
    if s.len() == 0 {
        0
    } else {
        sum_half_tax(s.drop_last()) + line_half_tax(s.last())
    }
}

pub open spec fn sum_full_tax(s: Seq<LineItem>) -> int
    decreases s.len(),
{
    if s.len() == 0 {
        0
    } else {
        sum_full_tax(s.drop_last()) + line_full_tax(s.last())
    }
}

/// The totals that `s` gives: for a GST bill the tax is split into central
/// and state halves within one state, and is integrated tax across states;
/// the grand total of a GST bill is rounded to a whole unit, and that of
/// any other bill is its taxable amount.
pub open spec fn is_totals_of(t: Totals, s: Seq<LineItem>, is_gst: bool, same_state: bool) -> bool {
    let taxable = sum_taxable(s);
    let pre = taxable + t.total_tax;
    &&& t.sub_total == sum_gross(s)
    &&& t.taxable_amount == taxable
    &&& t.cgst == (if is_gst && same_state { sum_half_tax(s) } else { 0 })
    &&& t.sgst == t.cgst
    &&& t.igst == (if is_gst && !same_state { sum_full_tax(s) } else { 0 })
    &&& t.total_tax == t.cgst + t.sgst + t.igst
    &&& t.grand_total == (if is_gst { round_half_even(pre as nat, UNIT as nat) * UNIT } else { taxable })
    &&& t.round_off == t.grand_total - pre
}


/// Rounding never passes `m` when `n` is at most `m` times `d`.
pub proof fn lemma_round_le(n: nat, d: nat, m: nat)
    requires
        d > 0,
        n <= m * d,
    ensures
        round_half_even(n, d) <= m,
{
    let q = n / d;
    let r = n % d;
    assert(n == d * q + r) by (nonlinear_arith)
        requires
            d > 0,
            q == n / d,
            r == n % d,
    ;
    assert(q <= m) by (nonlinear_arith)
        requires
            n == d * q + r,
            0 <= r,
            n <= m * d,
            d > 0,
    ;
    if q == m {
        assert(r == 0) by (nonlinear_arith)
            requires
                n == d * q + r,
                q == m,
                n <= m * d,
        ;
    }
}

/// `n / d` rounded half to even, computed.
pub fn round_half_even_exec(n: u128, d: u128) -> (r: u128)
    requires
        d > 0,
        n < u128::MAX,
    ensures
        r == round_half_even(n as nat, d as nat),
{
    let q = n / d;
    let rem = n % d;
    assert(rem < d);
    if rem < d - rem {
        q
    } else if rem > d - rem {
        assert(q < u128::MAX) by (nonlinear_arith)
            requires
                q == n / d,
                d > 0,
                n < u128::MAX,
        ;
        q + 1
    } else if q % 2 == 0 {
        q
    } else {
        assert(q < u128::MAX) by (nonlinear_arith)
            requires
                q == n / d,
                d > 0,
                n < u128::MAX,
        ;
        q + 1
    }
}

/// What is wrong with a line item, if anything.
pub fn line_problem(li: &LineItem) -> (r: Option<LineProblem>)
    ensures
        r == problem_of(*li),
{
    if li.quantity < 0 {
        Some(LineProblem::NegativeQuantity)
    } else if li.unit_price < 0 {
        Some(LineProblem::NegativePrice)
    } else if li.discount_bp > FULL_RATE {
        Some(LineProblem::DiscountOutOfRange)
    } else if li.gst_rate_bp > FULL_RATE {
        Some(LineProblem::RateOutOfRange)
    } else {
        None
    }
}

proof fn lemma_line_bounds(li: LineItem)
    requires
        valid_line(li),
    ensures
        0 <= line_gross(li),
        0 <= line_taxable(li) <= line_gross(li),
        0 <= line_half_tax(li) <= line_taxable(li),
        0 <= line_full_tax(li) <= line_taxable(li),
{
    let g = line_gross(li);
    assert(g >= 0) by (nonlinear_arith)
        requires
            g == li.quantity * li.unit_price,
            li.quantity >= 0,
            li.unit_price >= 0,
    ;
    let k = FULL_RATE - li.discount_bp;
    assert(0 <= g * k <= g * FULL_RATE) by (nonlinear_arith)
        requires
            g >= 0,
            0 <= k <= FULL_RATE,
    ;
    lemma_round_le((g * k) as nat, FULL_RATE as nat, g as nat);
    let t = line_taxable(li);
    let rate = li.gst_rate_bp;
    assert(0 <= t * rate <= t * FULL_RATE) by (nonlinear_arith)
        requires
            t >= 0,
            0 <= rate <= FULL_RATE,
    ;
    lemma_round_le((t * rate) as nat, FULL_RATE as nat, t as nat);
    lemma_round_le((t * rate) as nat, 2 * FULL_RATE as nat, t as nat);
}

/// The gross sum of valid lines is at least that of any prefix.
proof fn lemma_gross_prefix(s: Seq<LineItem>, i: int)
    requires
        all_valid(s),
        0 <= i <= s.len(),
    ensures
        sum_gross(s.take(i)) <= sum_gross(s),
    decreases s.len(),
{
    if i < s.len() {
        assert(s.drop_last().take(i) =~= s.take(i));
        assert(all_valid(s.drop_last()));
        lemma_gross_prefix(s.drop_last(), i);
        lemma_line_bounds(s.last());
    } else {
        assert(s.take(i) =~= s);
    }
}

/// Computes the totals of an invoice from its line items.
///
/// An empty list is refused; so is the first line with a negative quantity
/// or price, or with a discount or rate above one hundred percent; so is a
/// sub-total above `MAX_AMOUNT`.
pub fn compute_totals(items: &Vec<LineItem>, is_gst: bool, same_state: bool) -> (r: Result<Totals, TaxError>)
    ensures
        items@.len() == 0 ==> r == Err::<Totals, TaxError>(TaxError::EmptyInvoice),
        items@.len() > 0 ==> match r {
            Ok(t) => all_valid(items@) && sum_gross(items@) <= MAX_AMOUNT
                && is_totals_of(t, items@, is_gst, same_state),
            Err(TaxError::EmptyInvoice) => false,
            Err(TaxError::InvalidLineItem(i, p)) => i < items@.len()
                && (forall|j: int| 0 <= j < i ==> valid_line(#[trigger] items@[j]))
                && problem_of(items@[i as int]) == Some(p),
            Err(TaxError::AmountTooLarge) => all_valid(items@) && sum_gross(items@) > MAX_AMOUNT,
        },
{
    if items.len() == 0 {
        return Err(TaxError::EmptyInvoice);
    }
    let mut i: usize = 0;
    while i < items.len()
        invariant
            i <= items@.len(),
            forall|j: int| 0 <= j < i ==> valid_line(#[trigger] items@[j]),
        decreases items@.len() - i,
    {
        match line_problem(&items[i]) {
            Some(p) => {
                return Err(TaxError::InvalidLineItem(i, p));
            },
            None => {},
        }
        i = i + 1;
    }
    let ghost s = items@;
    let mut gross: u128 = 0;
    let mut taxable: u128 = 0;
    let mut half: u128 = 0;
    let mut full: u128 = 0;
    let mut k: usize = 0;
    while k < items.len()
        invariant
            s == items@,
            all_valid(s),
            k <= s.len(),
            gross == sum_gross(s.take(k as int)),
            taxable == sum_taxable(s.take(k as int)),
            half == sum_half_tax(s.take(k as int)),
            full == sum_full_tax(s.take(k as int)),
            gross <= MAX_AMOUNT,
            taxable <= gross,
            half <= taxable,
            full <= taxable,
        decreases s.len() - k,
    {
        let li = items[k];
        proof {
            lemma_line_bounds(li);
            assert(s.take(k + 1).drop_last() =~= s.take(k as int));
        }
        let qty = li.quantity as u128;
        let price = li.unit_price as u128;
        assert(qty * price <= 0x4000_0000_0000_0000_0000_0000_0000_0000) by (nonlinear_arith)
            requires
                qty <= 0x8000_0000_0000_0000u128,
                price <= 0x8000_0000_0000_0000u128,
        ;
        let g = qty * price;
        assert(g == line_gross(li));
        if gross + g > MAX_AMOUNT as u128 {
            proof {
                lemma_gross_prefix(s, k + 1);
            }
            return Err(TaxError::AmountTooLarge);
        }
        let keep = (FULL_RATE - li.discount_bp) as u128;
        assert(g * keep <= MAX_AMOUNT * FULL_RATE) by (nonlinear_arith)
            requires
                g <= MAX_AMOUNT,
                keep <= FULL_RATE,
        ;
        let t = round_half_even_exec(g * keep, FULL_RATE as u128);
        let rate = li.gst_rate_bp as u128;
        assert(t * rate <= MAX_AMOUNT * FULL_RATE) by (nonlinear_arith)
            requires
                t <= MAX_AMOUNT,
                rate <= FULL_RATE,
        ;
        let h = round_half_even_exec(t * rate, 2 * FULL_RATE as u128);
        let f = round_half_even_exec(t * rate, FULL_RATE as u128);
        gross = gross + g;
        taxable = taxable + t;
        half = half + h;
        full = full + f;
        k = k + 1;
    }
    proof {
        assert(s.take(s.len() as int) =~= s);
    }
    let cgst: u128 = if is_gst && same_state { half } else { 0 };
    let igst: u128 = if is_gst && !same_state { full } else { 0 };
    let total_tax = cgst + cgst + igst;
    let pre = taxable + total_tax;
    let grand = if is_gst {
        round_half_even_exec(pre, UNIT as u128) * (UNIT as u128)
    } else {
        taxable
    };
    proof {
        lemma_round_le(pre as nat, UNIT as nat, (pre + 1) as nat);
    }
    let round_off = (grand as i128 - pre as i128) as i64;
    Ok(Totals {
        sub_total: gross as u64,
        taxable_amount: taxable as u64,
        cgst: cgst as u64,
        sgst: cgst as u64,
        igst: igst as u64,
        total_tax: total_tax as u64,
        round_off,
        grand_total: grand as u64,
    })
}

} // verus!
