use vstd::prelude::*;
use crate::store::Outcome;
use crate::value::{MoodValue, in_range, lemma_classify, one, MOOD_MID_BITS, NEG_ZERO_BITS};

verus! {

/// The remark that follows a stored rating, chosen against the midpoint five.
#[derive(Clone, Copy, Debug, PartialEq, Eq)]
pub enum Commentary {
    /// Below five.
    CheerUp,
    /// Above five.
    ChillOut,
    /// Exactly five.
    Neutral,
}

/// The remark for a rating whose value is `v / 2^149`.
pub open spec fn commentary_for(v: int) -> Commentary {
    if v < 5 * one() {
        Commentary::CheerUp
    } else if v > 5 * one() {
        Commentary::ChillOut
    } else {
        Commentary::Neutral
    }
}

pub open spec fn commentary_text(c: Commentary) -> Seq<char> {
    match c {
        Commentary::CheerUp => "Cheer up Negative Nancy"@,
        Commentary::ChillOut => "Chill out Positive Pete"@,
        Commentary::Neutral => "To feel nothing so as to feel anything. Such a shame"@,
    }
}

impl Commentary {
    pub fn text(&self) -> (r: &'static str)
        ensures
            r@ == commentary_text(*self),
    {
        match self {
            Commentary::CheerUp => "Cheer up Negative Nancy",
            Commentary::ChillOut => "Chill out Positive Pete",
            Commentary::Neutral => "To feel nothing so as to feel anything. Such a shame",
        }
    }
}

/// The remark for a rating in range.
pub fn commentary(v: MoodValue) -> (r: Commentary)
    requires
        in_range(v.bits),
    ensures
        r == commentary_for(v@),
{
    proof {
        lemma_classify(v.bits);
    }
    if v.bits < MOOD_MID_BITS || v.bits == NEG_ZERO_BITS {
        Commentary::CheerUp
    } else if v.bits == MOOD_MID_BITS {
        Commentary::Neutral
    } else {
        Commentary::ChillOut
    }
}

/// The decimal digits of `n`.
pub open spec fn decimal(n: nat) -> Seq<char>
    decreases n,
{
    if n < 10 {
        seq![digit(n)]
    } else {
        decimal(n / 10).push(digit(n % 10))
    }
}

pub open spec fn digit(d: nat) -> char {
    seq!['0', '1', '2', '3', '4', '5', '6', '7', '8', '9'][d as int]
}

/// Relies on `usize`'s `ToString`, which writes the number in decimal.
#[verifier::external_body]
fn decimal_text(n: usize) -> (r: String)
    ensures
        r@ == decimal(n as nat),
{
    n.to_string()
}

/// The line that reports how storing an entry with rating `v` (times `2^149`) ended.
pub open spec fn report_text(outcome: Outcome, v: int) -> Seq<char> {
    match outcome {
        Outcome::Inserted(n) => "Inserted "@ + decimal(n as nat) + " rows. "@ + commentary_text(commentary_for(v)),
        Outcome::Failed(e) => "Rusqlite insertion error: "@ + e@,
    }
}

/// The line to show once storing an entry with rating `value` has ended.
pub fn report(outcome: &Outcome, value: MoodValue) -> (r: String)
    requires
        in_range(value.bits),
    ensures
        r@ == report_text(*outcome, value@),
{
    match outcome {
        Outcome::Inserted(n) => {
            let mut r = "Inserted ".to_string();
            let digits = decimal_text(*n);
            r.append(digits.as_str());
            r.append(" rows. ");
            let c = commentary(value);
            r.append(c.text());
            r
        },
        Outcome::Failed(e) => {
            let mut r = "Rusqlite insertion error: ".to_string();
            r.append(e.as_str());
            r
        },
    }
}

} // verus!
