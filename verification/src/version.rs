//! Package versions as plain `major.minor.patch` triples, ordered
//! lexicographically, plus the delta indicator shown next to a package's
//! latest trusted version.

use vstd::prelude::*;

verus! {

/// A package version.  Ordered lexicographically by major, then minor,
/// then patch.
#[derive(Clone, Copy, Debug, PartialEq, Eq, Structural)]
pub struct Version {
    pub major: u64,
    pub minor: u64,
    pub patch: u64,
}

/// Lexicographic order on versions.
pub open spec fn version_lt(a: Version, b: Version) -> bool {
    if a.major != b.major {
        a.major < b.major
    } else if a.minor != b.minor {
        a.minor < b.minor
    } else {
        a.patch < b.patch
    }
}

impl Version {
    /// Strict lexicographic comparison.
    pub fn lt(&self, other: &Version) -> (r: bool)
        ensures
            r == version_lt(*self, *other),
    {
        if self.major != other.major {
            self.major < other.major
        } else if self.minor != other.minor {
            self.minor < other.minor
        } else {
            self.patch < other.patch
        }
    }

    /// Renders the version as `major.minor.patch`.
    pub fn to_text(&self) -> (r: String)
        ensures
            r@ == version_text(*self),
    {
        let dot: &str = ".";
        proof {
            reveal_strlit(".");
            assert(dot@ =~= seq!['.']);
        }
        let mut s = u64_text(self.major);
        s.append(dot);
        s.append(u64_text(self.minor).as_str());
        s.append(dot);
        s.append(u64_text(self.patch).as_str());
        proof {
            assert(s@ =~= version_text(*self));
        }
        s
    }
}

/// The character for one decimal digit.
pub open spec fn digit_char(d: int) -> char {
    if d == 0 {
        '0'
    } else if d == 1 {
        '1'
    } else if d == 2 {
        '2'
    } else if d == 3 {
        '3'
    } else if d == 4 {
        '4'
    } else if d == 5 {
        '5'
    } else if d == 6 {
        '6'
    } else if d == 7 {
        '7'
    } else if d == 8 {
        '8'
    } else {
        '9'
    }
}

/// The decimal rendering of a natural number, most significant digit
/// first, with no leading zeroes (`0` renders as `"0"`).
pub open spec fn dec_text(n: nat) -> Seq<char>
    decreases n,
{
    if n < 10 {
        seq![digit_char(n as int)]
    } else {
        dec_text(n / 10).push(digit_char((n % 10) as int))
    }
}

/// The rendering of a whole version: decimal components joined by dots.
pub open spec fn version_text(v: Version) -> Seq<char> {
    dec_text(v.major as nat) + seq!['.'] + dec_text(v.minor as nat) + seq!['.'] + dec_text(
        v.patch as nat,
    )
}

/// What the delta indicator shows: an arrow for whether the latest
/// trusted version lies above or below the package's own version, then
/// that version unless the two are equal; empty when no trusted version
/// is known.
pub open spec fn ltv_text(base: Version, latest: Option<Version>) -> Seq<char> {
    match latest {
        Option::None => Seq::empty(),
        Option::Some(l) => {
            let arrow = if version_lt(base, l) {
                seq!['\u{2191}']
            } else if version_lt(l, base) {
                seq!['\u{2193}']
            } else {
                seq!['=']
            };
            if base == l {
                arrow
            } else {
                arrow + version_text(l)
            }
        },
    }
}

/// Renders how a package's latest trusted version relates to the version
/// in the tree.
pub fn latest_trusted_version_string(base_version: &Version, latest_trusted_version: &Option<
    Version,
>) -> (r: String)
    ensures
        r@ == ltv_text(*base_version, *latest_trusted_version),
{
    match latest_trusted_version {
        None => String::new(),
        Some(l) => {
            let up: &str = "\u{2191}";
            let down: &str = "\u{2193}";
            let eq_sign: &str = "=";
            proof {
                reveal_strlit("\u{2191}");
                reveal_strlit("\u{2193}");
                reveal_strlit("=");
                assert(up@ =~= seq!['\u{2191}']);
                assert(down@ =~= seq!['\u{2193}']);
                assert(eq_sign@ =~= seq!['=']);
            }
            let arrow: &str = if base_version.lt(l) {
                up
            } else if l.lt(base_version) {
                down
            } else {
                eq_sign
            };
            let mut s = arrow.to_owned();
            if !(base_version == l) {
                s.append(l.to_text().as_str());
            }
            s
        },
    }
}

/// One decimal digit as a string slice.
fn digit_str(d: u64) -> (r: &'static str)
    requires
        d < 10,
    ensures
        r@ =~= seq![digit_char(d as int)],
{
    proof {
        reveal_strlit("0");
        reveal_strlit("1");
        reveal_strlit("2");
        reveal_strlit("3");
        reveal_strlit("4");
        reveal_strlit("5");
        reveal_strlit("6");
        reveal_strlit("7");
        reveal_strlit("8");
        reveal_strlit("9");
    }
    if d == 0 {
        "0"
    } else if d == 1 {
        "1"
    } else if d == 2 {
        "2"
    } else if d == 3 {
        "3"
    } else if d == 4 {
        "4"
    } else if d == 5 {
        "5"
    } else if d == 6 {
        "6"
    } else if d == 7 {
        "7"
    } else if d == 8 {
        "8"
    } else {
        "9"
    }
}

/// Renders a number in decimal.
pub fn u64_text(n: u64) -> (r: String)
    ensures
        r@ == dec_text(n as nat),
    decreases n,
{
    if n < 10 {
        let mut s = String::new();
        s.append(digit_str(n));
        proof {
            assert(s@ =~= dec_text(n as nat));
        }
        s
    } else {
        let mut s = u64_text(n / 10);
        s.append(digit_str(n % 10));
        proof {
            assert(s@ =~= dec_text(n as nat));
        }
        s
    }
}

} // verus!
