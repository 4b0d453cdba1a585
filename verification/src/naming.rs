//! The name under which a tileset is saved.

use vstd::prelude::*;
use vstd::string::StringExecFns;

verus! {

/// The character of a decimal digit.
pub open spec fn digit(d: nat) -> char {
    if d == 0 {
        '0'
    } else if d == 1 {
        '1'
    } else if d == 2 {
        '2'
    } else if d == 3 {
        '3'
    } else if d == 4 {
        '4'
    } else if d == 5 {
        '5'
    } else if d == 6 {
        '6'
    } else if d == 7 {
        '7'
    } else if d == 8 {
        '8'
    } else {
        '9'
    }
}

/// A number in decimal, without sign and without leading zeros.
pub open spec fn decimal(n: nat) -> Seq<char>
    decreases n,
{
    if n < 10 {
        seq![digit(n)]
    } else {
        decimal(n / 10).push(digit(n % 10))
    }
}

/// The stem used where the input path has none.
pub open spec fn fallback_stem() -> Seq<char> {
    "my"@
}

/// The name suggested for the tileset of the input `stem`:
/// the stem, `-tileset-`, the tile size twice with an `x` between, `.png`.
pub open spec fn default_name(stem: Seq<char>, tile_size: nat) -> Seq<char> {
    stem + "-tileset-"@ + decimal(tile_size) + "x"@ + decimal(tile_size) + ".png"@
}

/// The stem to name the tileset after.
pub open spec fn stem_or_fallback(stem: Option<&str>) -> Seq<char> {
    match stem {
        Some(s) => s@,
        None => fallback_stem(),
    }
}

fn digit_text(d: u32) -> (text: &'static str)
    requires
        d < 10,
    ensures
        text@ == seq![digit(d as nat)],
{
    proof {
        reveal_strlit("0");
        reveal_strlit("1");
        reveal_strlit("2");
        reveal_strlit("3");
        reveal_strlit("4");
        reveal_strlit("5");
        reveal_strlit("6");
        reveal_strlit("7");
        reveal_strlit("8");
        reveal_strlit("9");
    }
    let text = if d == 0 {
        "0"
    } else if d == 1 {
        "1"
    } else if d == 2 {
        "2"
    } else if d == 3 {
        "3"
    } else if d == 4 {
        "4"
    } else if d == 5 {
        "5"
    } else if d == 6 {
        "6"
    } else if d == 7 {
        "7"
    } else if d == 8 {
        "8"
    } else {
        "9"
    };
    assert(text@ =~= seq![digit(d as nat)]);
    text
}

/// Writes `n` in decimal.
pub fn decimal_text(n: u32) -> (text: String)
    ensures
        text@ == decimal(n as nat),
    decreases n,
{
    if n < 10 {
        String::from_str(digit_text(n))
    } else {
        let mut text = decimal_text(n / 10);
        text.append(digit_text(n % 10));
        assert(text@ =~= decimal(n as nat));
        text
    }
}

/// The name suggested for the tileset where the caller has chosen none. An
/// input path without a usable stem is named as if its stem were `my`.
pub fn default_output_name(stem: Option<&str>, tile_size: u32) -> (name: String)
    ensures
        name@ == default_name(stem_or_fallback(stem), tile_size as nat),
{
    let size = decimal_text(tile_size);
    let mut name = match stem {
        Some(s) => String::from_str(s),
        None => String::from_str("my"),
    };
    name.append("-tileset-");
    name.append(size.as_str());
    name.append("x");
    name.append(size.as_str());
    name.append(".png");
    name
}

/// The name under which the tileset is saved: the caller's own where one is
/// given, taken as it is, and the suggested name otherwise.
pub fn output_name(custom: Option<&str>, stem: Option<&str>, tile_size: u32) -> (name: String)
    ensures
        name@ == match custom {
            Some(chosen) => chosen@,
            None => default_name(stem_or_fallback(stem), tile_size as nat),
        },
{
    match custom {
        Some(chosen) => String::from_str(chosen),
        None => default_output_name(stem, tile_size),
    }
}

} // verus!
