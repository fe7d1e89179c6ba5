//! The parameters of a view, read from the pairs of a query string.
//!
//! Width, height and the cap on the count are integers and are settled here,
//! each with its default. The centre and the magnification are real numbers:
//! the text given for each is handed on as it stands, for the caller to read.

use vstd::prelude::*;
use crate::number::{decimal_i32, parse_i32};
use crate::query::{form_pairs, lookup, pairs_of, value_of, without_leading_hashes};

verus! {

/// The width in pixels where `w` gives none.
pub const DEFAULT_WIDTH: i32 = 800;

/// The height in pixels where `h` gives none.
pub const DEFAULT_HEIGHT: i32 = 600;

/// The cap on the count where `limit` gives none.
pub const DEFAULT_LIMIT: i32 = 1000;

/// The real part of the centre where `x` gives none, as text.
pub const DEFAULT_X: &'static str = "-0.5";

/// The imaginary part of the centre where `y` gives none, as text.
pub const DEFAULT_Y: &'static str = "0.0";

/// The magnification where `mag` gives none, as text.
pub const DEFAULT_MAG: &'static str = "1.5";

/// The parameters of a view.
#[derive(Clone, Debug)]
pub struct Params {
    /// Pixels in a row.
    pub width: i32,
    /// Rows.
    pub height: i32,
    /// What was written for the real part of the centre; empty where nothing
    /// was. A caller that cannot read it as a number reads `DEFAULT_X`.
    pub x: String,
    /// What was written for the imaginary part of the centre; empty where
    /// nothing was. A caller that cannot read it as a number reads `DEFAULT_Y`.
    pub y: String,
    /// What was written for the magnification; empty where nothing was. A
    /// caller that cannot read it as a number reads `DEFAULT_MAG`.
    pub mag: String,
    /// The cap on the count of steps.
    pub limit: i32,
}

/// The parameters as plain values.
pub struct ParamsView {
    pub width: i32,
    pub height: i32,
    pub x: Seq<char>,
    pub y: Seq<char>,
    pub mag: Seq<char>,
    pub limit: i32,
}

impl View for Params {
    type V = ParamsView;

    open spec fn view(&self) -> ParamsView {
        ParamsView {
            width: self.width,
            height: self.height,
            x: self.x@,
            y: self.y@,
            mag: self.mag@,
            limit: self.limit,
        }
    }
}

/// The number that a text writes, or `fallback` where it writes none that
/// fits 32 bits.
pub open spec fn number_or(text: Seq<char>, fallback: i32) -> i32 {
    match decimal_i32(text) {
        Some(v) => v,
        None => fallback,
    }
}

/// The parameters that a list of pairs settles: `w`, `h` and `limit` are read
/// as integers, each replaced by its default where the key is absent or its
/// value is no such number; `x`, `y` and `mag` are taken as they stand.
pub open spec fn resolved(pairs: Seq<(Seq<char>, Seq<char>)>) -> ParamsView {
    ParamsView {
        width: number_or(value_of(pairs, "w"@), DEFAULT_WIDTH),
        height: number_or(value_of(pairs, "h"@), DEFAULT_HEIGHT),
        x: value_of(pairs, "x"@),
        y: value_of(pairs, "y"@),
        mag: value_of(pairs, "mag"@),
        limit: number_or(value_of(pairs, "limit"@), DEFAULT_LIMIT),
    }
}

/// What is settled where nothing is given.
pub open spec fn defaults() -> ParamsView {
    ParamsView {
        width: DEFAULT_WIDTH,
        height: DEFAULT_HEIGHT,
        x: Seq::empty(),
        y: Seq::empty(),
        mag: Seq::empty(),
        limit: DEFAULT_LIMIT,
    }
}

/// No pairs settle the defaults.
pub proof fn lemma_resolved_empty()
    ensures
        resolved(Seq::empty()) == defaults(),
{
}

/// Pairs that carry none of the six keys settle the defaults.
pub proof fn lemma_resolved_without_keys(pairs: Seq<(Seq<char>, Seq<char>)>)
    requires
        forall|i: int|
            0 <= i < pairs.len() ==> {
                let key = #[trigger] pairs[i].0;
                key != "w"@ && key != "h"@ && key != "x"@ && key != "y"@ && key != "mag"@ && key
                    != "limit"@
            },
    ensures
        resolved(pairs) == defaults(),
    decreases pairs.len(),
{
    if pairs.len() > 0 {
        let shorter = pairs.drop_last();
        assert forall|i: int| 0 <= i < shorter.len() implies {
            let key = #[trigger] shorter[i].0;
            key != "w"@ && key != "h"@ && key != "x"@ && key != "y"@ && key != "mag"@ && key
                != "limit"@
        } by {
            assert(shorter[i] == pairs[i]);
        }
        lemma_resolved_without_keys(shorter);
    }
}

/// The integer that the pairs give `key`, or `fallback`.
fn number_under(pairs: &Vec<(String, String)>, key: &str, fallback: i32) -> (n: i32)
    ensures
        n == number_or(value_of(pairs.deep_view(), key@), fallback),
{
    match parse_i32(lookup(pairs, key)) {
        Some(v) => v,
        None => fallback,
    }
}

/// Settles the parameters from a list of pairs. Nothing is refused: a key
/// that is absent, or whose value is no number, leaves the default.
pub fn resolve(pairs: &Vec<(String, String)>) -> (p: Params)
    ensures
        p@ == resolved(pairs.deep_view()),
{
    Params {
        width: number_under(pairs, "w", DEFAULT_WIDTH),
        height: number_under(pairs, "h", DEFAULT_HEIGHT),
        x: lookup(pairs, "x").to_owned(),
        y: lookup(pairs, "y").to_owned(),
        mag: lookup(pairs, "mag").to_owned(),
        limit: number_under(pairs, "limit", DEFAULT_LIMIT),
    }
}

/// Settles the parameters from the fragment of an address: the `#` characters
/// at its front are dropped, the rest is read as the pairs of a query string.
/// A fragment with nothing behind its `#` settles the defaults.
pub fn params(hash: &str) -> (p: Params)
    ensures
        p@ == resolved(form_pairs(without_leading_hashes(hash@))),
        without_leading_hashes(hash@).len() == 0 ==> p@ == defaults(),
{
    let pairs = pairs_of(hash);
    proof {
        if without_leading_hashes(hash@).len() == 0 {
            assert(pairs.deep_view() =~= Seq::empty());
            lemma_resolved_empty();
        }
    }
    resolve(&pairs)
}

} // verus!
