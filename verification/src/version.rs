//! Content format versions: a "major.minor.patch" triple parsed from the
//! version text of an entity document.  A pre-release or build suffix
//! introduced by `-` or `+` is carried along but takes no part in
//! ordering, which goes by the numeric triple, compared
//! lexicographically.
//!
//! The text the version was parsed from is kept alongside the numeric
//! triple, so that re-encoding an entity reproduces its version field
//! unchanged.
use vstd::prelude::*;

verus! {

/// The mathematical model of a format version.
pub struct VersionModel {
    pub major: int,
    pub minor: int,
    pub patch: int,
    pub raw: Seq<char>,
}

/// A parsed format version: numeric triple plus the text it came from.
#[derive(Debug)]
pub struct FormatVersion {
    major: u64,
    minor: u64,
    patch: u64,
    raw: String,
}

pub open spec fn is_digit(c: char) -> bool {
    '0' <= c && c <= '9'
}

pub open spec fn digit_val(c: char) -> int {
    c as int - '0' as int
}

pub open spec fn all_digits(s: Seq<char>) -> bool {
    forall|i: int| 0 <= i < s.len() ==> is_digit(#[trigger] s[i])
}

/// Value of a non-empty digit string, most significant digit first.
pub open spec fn digits_val(s: Seq<char>) -> int
    decreases s.len(),
{
    if s.len() == 0 {
        0
    } else {
        digits_val(s.drop_last()) * 10 + digit_val(s.last())
    }
}

/// A numeric version component: non-empty, all digits, fits `u64`.
pub open spec fn parse_num(s: Seq<char>) -> Option<int> {
    if s.len() > 0 && all_digits(s) && digits_val(s) <= u64::MAX {
        Some(digits_val(s))
    } else {
        None
    }
}

/// Position of the first `'.'` at or after `from`, if any.
pub open spec fn first_dot(s: Seq<char>, from: int) -> Option<int>
    decreases s.len() - from,
{
    if from < 0 || from >= s.len() {
        None
    } else if s[from] == '.' {
        Some(from)
    } else {
        first_dot(s, from + 1)
    }
}

/// Position of the first pre-release or build separator, at or after
/// `from`.
pub open spec fn first_sep(s: Seq<char>, from: int) -> Option<int>
    decreases s.len() - from,
{
    if from < 0 || from >= s.len() {
        None
    } else if s[from] == '-' || s[from] == '+' {
        Some(from)
    } else {
        first_sep(s, from + 1)
    }
}

pub proof fn lemma_first_sep_at(s: Seq<char>, from: int, p: int)
    requires
        0 <= from <= p <= s.len(),
        forall|j: int| from <= j < p ==> !(#[trigger] s[j] == '-' || s[j] == '+'),
        p < s.len() ==> s[p] == '-' || s[p] == '+',
    ensures
        first_sep(s, from) == (if p == s.len() {
            None::<int>
        } else {
            Some(p)
        }),
    decreases p - from,
{
    if from < p {
        assert(!(s[from] == '-' || s[from] == '+'));
        lemma_first_sep_at(s, from + 1, p);
    }
}

/// Where the numeric core of a version text ends: at the first `-` or
/// `+`, or at the end.
pub open spec fn spec_core_end(s: Seq<char>) -> int {
    match first_sep(s, 0) {
        Some(i) => i,
        None => s.len() as int,
    }
}

/// The triple denoted by a version text, if it is one: a
/// "major.minor.patch" core of exactly two dots and three `u64` numerals,
/// optionally followed by a `-` or `+` suffix that is carried but not
/// interpreted.
pub open spec fn parse_version(s: Seq<char>) -> Option<VersionModel> {
    let core = s.subrange(0, spec_core_end(s));
    match first_dot(core, 0) {
        None => None,
        Some(i) => match first_dot(core, i + 1) {
            None => None,
            Some(j) => if first_dot(core, j + 1) is Some {
                None
            } else {
                match (
                    parse_num(core.subrange(0, i)),
                    parse_num(core.subrange(i + 1, j)),
                    parse_num(core.subrange(j + 1, core.len() as int)),
                ) {
                    (Some(a), Some(b), Some(c)) => Some(
                        VersionModel { major: a, minor: b, patch: c, raw: s },
                    ),
                    _ => None,
                }
            },
        },
    }
}

impl View for FormatVersion {
    type V = VersionModel;

    closed spec fn view(&self) -> VersionModel {
        VersionModel {
            major: self.major as int,
            minor: self.minor as int,
            patch: self.patch as int,
            raw: self.raw@,
        }
    }
}

impl VersionModel {
    /// Lexicographic order on the numeric triple.
    pub open spec fn le(self, other: VersionModel) -> bool {
        self.major < other.major || (self.major == other.major && (self.minor < other.minor || (
        self.minor == other.minor && self.patch <= other.patch)))
    }

    /// A version is well formed when its text denotes its triple.
    pub open spec fn wf(self) -> bool {
        match parse_version(self.raw) {
            Some(v) => v.major == self.major && v.minor == self.minor && v.patch == self.patch,
            None => false,
        }
    }
}

/// Parses one numeric component from `s[from..to]`.
fn parse_num_exec(s: &str, from: usize, to: usize) -> (r: Option<u64>)
    requires
        from <= to <= s@.len(),
    ensures
        match r {
            Some(n) => parse_num(s@.subrange(from as int, to as int)) == Some(n as int),
            None => parse_num(s@.subrange(from as int, to as int)) is None,
        },
{
    let ghost part = s@.subrange(from as int, to as int);
    if from == to {
        return None;
    }
    let mut acc: u64 = 0;
    let mut i: usize = from;
    while i < to
        invariant
            from <= i <= to <= s@.len(),
            part == s@.subrange(from as int, to as int),
            all_digits(part.subrange(0, i - from)),
            acc == digits_val(part.subrange(0, i - from)),
        decreases to - i,
    {
        let c = s.get_char(i);
        proof {
            assert(part[i - from] == s@[i as int]);
        }
        if c < '0' || c > '9' {
            proof {
                assert(!is_digit(part[i - from]));
            }
            return None;
        }
        let d: u64 = (c as u32 - '0' as u32) as u64;
        assert(d <= 9) by {
            assert(is_digit(part[i - from]));
        }
        if acc > (u64::MAX - d) / 10 {
            proof {
                lemma_digits_val_grows(part, i - from + 1);
                assert(part.subrange(0, i - from + 1).drop_last() =~= part.subrange(
                    0,
                    i - from,
                ));
                assert(part.subrange(0, i - from + 1).last() == part[i - from]);
                assert(digits_val(part.subrange(0, i - from + 1)) == acc * 10 + d);
                assert(acc * 10 + d > u64::MAX) by (nonlinear_arith)
                    requires
                        acc > (u64::MAX - d) / 10,
                        d <= 9,
                ;
                if all_digits(part) {
                    lemma_digits_val_mono(part, i - from + 1);
                }
            }
            return None;
        }
        proof {
            assert(part.subrange(0, i - from + 1).drop_last() =~= part.subrange(0, i - from));
            assert(part.subrange(0, i - from + 1).last() == part[i - from]);
        }
        assert(acc * 10 + d <= u64::MAX) by (nonlinear_arith)
            requires
                acc <= (u64::MAX - d) / 10,
                d <= 9,
        ;
        acc = acc * 10 + d;
        i += 1;
    }
    proof {
        assert(part.subrange(0, (to - from) as int) =~= part);
    }
    Some(acc)
}

/// A digit string's value is at least the value of any of its prefixes.
proof fn lemma_digits_val_mono(s: Seq<char>, k: int)
    requires
        0 <= k <= s.len(),
        all_digits(s),
    ensures
        digits_val(s) >= digits_val(s.subrange(0, k)),
    decreases s.len() - k,
{
    if k < s.len() {
        assert(all_digits(s.subrange(0, k + 1))) by {
            assert(forall|i: int|
                0 <= i < k + 1 ==> s.subrange(0, k + 1)[i] == #[trigger] s[i]);
        }
        lemma_digits_val_grows(s, k + 1);
        lemma_digits_val_mono(s, k + 1);
    } else {
        assert(s.subrange(0, k) =~= s);
    }
}

/// If a digit string grows by one digit, its value does not shrink.
proof fn lemma_digits_val_grows(s: Seq<char>, k: int)
    requires
        0 < k <= s.len(),
        all_digits(s.subrange(0, k)),
    ensures
        digits_val(s.subrange(0, k)) >= digits_val(s.subrange(0, k - 1)),
{
    let t = s.subrange(0, k);
    assert(t.drop_last() =~= s.subrange(0, k - 1));
    let v = digits_val(t.drop_last());
    assert(v >= 0) by {
        lemma_digits_val_nonneg(t.drop_last());
    }
    assert(v * 10 == v + 9 * v);
    assert(digit_val(t.last()) >= 0) by {
        assert(is_digit(t[k - 1]));
    }
}

pub proof fn lemma_digits_val_nonneg(s: Seq<char>)
    ensures
        digits_val(s) >= 0 || !all_digits(s),
    decreases s.len(),
{
    if s.len() > 0 {
        if all_digits(s) {
            assert(all_digits(s.drop_last())) by {
                assert(forall|i: int|
                    0 <= i < s.len() - 1 ==> s.drop_last()[i] == #[trigger] s[i]);
            }
            lemma_digits_val_nonneg(s.drop_last());
            assert(is_digit(s[s.len() - 1]));
        }
    }
}

impl FormatVersion {
    /// Reads a version text; `None` exactly when the text does not
    /// denote a "major.minor.patch" triple, with an optional `-` or `+`
    /// suffix.
    #[verifier::loop_isolation(false)]
    pub fn parse(s: &str) -> (r: Option<FormatVersion>)
        ensures
            match r {
                Some(v) => parse_version(s@) == Some(v@) && v@.wf(),
                None => parse_version(s@) is None,
            },
    {
        let n = s.unicode_len();
        let mut ncore: usize = n;
        let mut k: usize = 0;
        while k < ncore
            invariant
                0 <= k <= ncore <= n,
                forall|j: int| 0 <= j < k ==> !(#[trigger] s@[j] == '-' || s@[j] == '+'),
                ncore == n || (k == ncore && (s@[ncore as int] == '-' || s@[ncore as int]
                    == '+')),
            decreases ncore - k,
        {
            let c = s.get_char(k);
            if c == '-' || c == '+' {
                ncore = k;
            } else {
                k += 1;
            }
        }
        proof {
            lemma_first_sep_at(s@, 0, ncore as int);
            assert(spec_core_end(s@) == ncore as int);
        }
        let ghost core = s@.subrange(0, ncore as int);
        let mut d1: usize = 0;
        let mut found1 = false;
        let mut d2: usize = 0;
        let mut found2 = false;
        let mut i: usize = 0;
        while i < ncore
            invariant
                ncore as int == spec_core_end(s@),
                ncore <= n == s@.len(),
                core == s@.subrange(0, ncore as int),
                0 <= i <= ncore,
                !found1 ==> !found2 && first_dot(core, 0) == first_dot(core, i as int),
                found1 ==> d1 < i && first_dot(core, 0) == Some(d1 as int),
                found1 && !found2 ==> first_dot(core, d1 + 1) == first_dot(core, i as int),
                found2 ==> found1 && d1 < d2 < i && first_dot(core, d1 + 1) == Some(d2 as int),
                found2 ==> first_dot(core, d2 + 1) == first_dot(core, i as int),
            decreases ncore - i,
        {
            proof {
                assert(core[i as int] == s@[i as int]);
            }
            if s.get_char(i) == '.' {
                if !found1 {
                    d1 = i;
                    found1 = true;
                } else if !found2 {
                    d2 = i;
                    found2 = true;
                } else {
                    proof {
                        assert(first_dot(core, i as int) == Some(i as int));
                    }
                    return None;
                }
            }
            i += 1;
        }
        if !found1 || !found2 {
            return None;
        }
        proof {
            assert(core.subrange(0, d1 as int) =~= s@.subrange(0, d1 as int));
            assert(core.subrange(d1 + 1, d2 as int) =~= s@.subrange(d1 + 1, d2 as int));
            assert(core.subrange(d2 + 1, core.len() as int) =~= s@.subrange(
                d2 + 1,
                ncore as int,
            ));
        }
        let major = match parse_num_exec(s, 0, d1) {
            Some(v) => v,
            None => {
                return None;
            },
        };
        let minor = match parse_num_exec(s, d1 + 1, d2) {
            Some(v) => v,
            None => {
                return None;
            },
        };
        let patch = match parse_num_exec(s, d2 + 1, ncore) {
            Some(v) => v,
            None => {
                return None;
            },
        };
        Some(FormatVersion { major, minor, patch, raw: s.to_owned() })
    }

    /// The version text this value was parsed from.
    pub fn raw_text(&self) -> (r: &String)
        ensures
            r@ == self@.raw,
    {
        &self.raw
    }

    pub fn le(&self, other: &FormatVersion) -> (r: bool)
        ensures
            r == self@.le(other@),
    {
        self.major < other.major || (self.major == other.major && (self.minor < other.minor || (
        self.minor == other.minor && self.patch <= other.patch)))
    }
}

impl Clone for FormatVersion {
    fn clone(&self) -> (r: Self)
        ensures
            r@ == self@,
    {
        FormatVersion {
            major: self.major,
            minor: self.minor,
            patch: self.patch,
            raw: self.raw.clone(),
        }
    }
}

impl PartialEq for FormatVersion {
    /// Versions are equal when both the triple and the text agree.
    fn eq(&self, other: &FormatVersion) -> (r: bool) {
        self.major == other.major && self.minor == other.minor && self.patch == other.patch
            && crate::value::str_eq(self.raw.as_str(), other.raw.as_str())
    }
}

impl vstd::std_specs::cmp::PartialEqSpecImpl for FormatVersion {
    open spec fn obeys_eq_spec() -> bool {
        true
    }

    open spec fn eq_spec(&self, other: &FormatVersion) -> bool {
        self@ == other@
    }
}

} // verus!
