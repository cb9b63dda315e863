//! Plain terminal rows of labeled values, and the decimal formatting the
//! library's status strings are built from.

use vstd::prelude::*;
use vstd::string::StringExecFns;

verus! {

/// The decimal digit characters of `x`, most significant first.
pub open spec fn spec_digits(x: int) -> Seq<char>
    recommends
        x >= 0,
    decreases x,
{
    if x < 10 {
        seq![spec_digit_char(x)]
    } else {
        spec_digits(x / 10).push(spec_digit_char(x % 10))
    }
}

/// The character of one decimal digit.
pub open spec fn spec_digit_char(d: int) -> char {
    if d == 0 {
        '0'
    } else if d == 1 {
        '1'
    } else if d == 2 {
        '2'
    } else if d == 3 {
        '3'
    } else if d == 4 {
        '4'
    } else if d == 5 {
        '5'
    } else if d == 6 {
        '6'
    } else if d == 7 {
        '7'
    } else if d == 8 {
        '8'
    } else {
        '9'
    }
}

/// One decimal digit as a string slice.
fn digit_str(d: u64) -> (r: &'static str)
    requires
        d < 10,
    ensures
        r@ == seq![spec_digit_char(d as int)],
{
    proof {
        reveal_strlit("0");
        reveal_strlit("1");
        reveal_strlit("2");
        reveal_strlit("3");
        reveal_strlit("4");
        reveal_strlit("5");
        reveal_strlit("6");
        reveal_strlit("7");
        reveal_strlit("8");
        reveal_strlit("9");
    }
    let r = if d == 0 {
        "0"
    } else if d == 1 {
        "1"
    } else if d == 2 {
        "2"
    } else if d == 3 {
        "3"
    } else if d == 4 {
        "4"
    } else if d == 5 {
        "5"
    } else if d == 6 {
        "6"
    } else if d == 7 {
        "7"
    } else if d == 8 {
        "8"
    } else {
        "9"
    };
    proof {
        assert(r@ =~= seq![spec_digit_char(d as int)]);
    }
    r
}

/// `x` written in decimal.
pub fn decimal_string(x: u64) -> (r: String)
    ensures
        r@ == spec_digits(x as int),
    decreases x,
{
    if x < 10 {
        digit_str(x).to_owned()
    } else {
        let high = decimal_string(x / 10);
        let low = digit_str(x % 10);
        let r = high.concat(low);
        proof {
            assert(r@ =~= spec_digits(x as int));
        }
        r
    }
}

/// A labeled text row.
pub struct Text {
    /// What the row shows.
    pub description: String,
    /// The current value, already rendered.
    pub value: String,
}

impl Text {
    /// A row with a description and an initial value.
    pub fn new(description: &str, value: &str) -> (r: Text)
        ensures
            r.description@ == description@,
            r.value@ == value@,
    {
        Text { description: description.to_owned(), value: value.to_owned() }
    }

    /// Replace the rendered value.
    pub fn update(&mut self, value: &str)
        ensures
            final(self).description@ == old(self).description@,
            final(self).value@ == value@,
    {
        self.value = value.to_owned();
    }
}

} // verus!
