//! The text form of an atmosphere definition.
//!
//! ```text
//! pressure(0) = 101325
//! temperature:
//! at(0) = 288
//! lapse() = -0.0065
//! lapse(11e3) = 0
//! ```
//!
//! A pressure definition comes first, then `temperature:`, the temperature at one altitude,
//! and one or more lapse rates: the first without an altitude, the others each with the
//! altitude from which it holds. Whitespace may stand before every token. Numbers are written
//! as an optional sign, digits, an optional fraction and an optional exponent (`-5.03e-2`);
//! the parser reports where each number stands and leaves converting it to the caller.
use vstd::prelude::*;

verus! {

/// Where a number stands in the text: bytes `start` up to, not including, `end`.
#[derive(Clone, Copy, Debug, PartialEq, Eq, Structural)]
pub struct Span {
    pub start: usize,
    pub end: usize,
}

/// `pressure(altitude) = pressure`.
#[derive(Clone, Copy, Debug, PartialEq, Eq, Structural)]
pub struct PressureDef {
    pub start_h: Span,
    pub start_p: Span,
}

/// `lapse(altitude) = gradient`, the altitude left out for the first lapse rate.
#[derive(Clone, Copy, Debug, PartialEq, Eq, Structural)]
pub struct LapseDef {
    pub start_h: Option<Span>,
    pub lapse: Span,
}

/// `at(altitude) = temperature`.
#[derive(Clone, Copy, Debug, PartialEq, Eq, Structural)]
pub struct TemperatureAt {
    pub start_h: Span,
    pub start_t: Span,
}

/// `temperature:` followed by a temperature and the lapse rates.
#[derive(Clone, Debug)]
pub struct TemperatureDef {
    pub start: TemperatureAt,
    pub lapses: Vec<LapseDef>,
}

/// A whole atmosphere definition.
#[derive(Clone, Debug)]
pub struct AtmosphereDef {
    pub temperature: TemperatureDef,
    pub pressure: PressureDef,
}

pub open spec fn is_space(c: u8) -> bool {
    c == 32 || c == 9 || c == 10 || c == 13
}

pub open spec fn is_digit(c: u8) -> bool {
    48 <= c <= 57
}

pub open spec fn is_sign(c: u8) -> bool {
    c == 43 || c == 45
}

/// The first position at or after `i` that does not hold whitespace.
pub open spec fn skip_space(s: Seq<u8>, i: int) -> int
    decreases s.len() - i,
{
    if 0 <= i < s.len() && is_space(s[i]) {
        skip_space(s, i + 1)
    } else {
        i
    }
}

/// The first position at or after `i` that does not hold a digit.
pub open spec fn digits_end(s: Seq<u8>, i: int) -> int
    decreases s.len() - i,
{
    if 0 <= i < s.len() && is_digit(s[i]) {
        digits_end(s, i + 1)
    } else {
        i
    }
}

/// Where the longest number that begins at `i` ends: an optional sign, one or more digits,
/// then `.` and one or more digits if they follow, then `e`, an optional sign and one or more
/// digits if they follow.
pub open spec fn number_end(s: Seq<u8>, i: int) -> Option<int> {
    let j = if 0 <= i < s.len() && is_sign(s[i]) {
        i + 1
    } else {
        i
    };
    let d = digits_end(s, j);
    if d == j {
        None
    } else {
        let f = if d + 1 < s.len() && s[d] == 46 && is_digit(s[d + 1]) {
            digits_end(s, d + 1)
        } else {
            d
        };
        let k = if f + 1 < s.len() && is_sign(s[f + 1]) {
            f + 2
        } else {
            f + 1
        };
        if f < s.len() && s[f] == 101 && k < s.len() && is_digit(s[k]) {
            Some(digits_end(s, k))
        } else {
            Some(f)
        }
    }
}

/// Where the word `w` ends if it follows optional whitespace at `i`.
pub open spec fn word_end(s: Seq<u8>, i: int, w: Seq<u8>) -> Option<int> {
    let j = skip_space(s, i);
    if j + w.len() <= s.len() && s.subrange(j, j + w.len()) == w {
        Some(j + w.len())
    } else {
        None
    }
}

/// The number that follows optional whitespace at `i`, if one does.
pub open spec fn number_at(s: Seq<u8>, i: int) -> Option<Span> {
    let j = skip_space(s, i);
    match number_end(s, j) {
        Some(e) => Some(Span { start: j as usize, end: e as usize }),
        None => None,
    }
}

/// `name ( [number] ) = number` at `i`: the argument, the value and where it ends. Without
/// `optional`, the argument must be there.
pub open spec fn call_at(s: Seq<u8>, i: int, name: Seq<u8>, optional: bool) -> Option<(Option<Span>, Span)> {
    match word_end(s, i, name) {
        None => None,
        Some(i1) => match word_end(s, i1, seq![40u8]) {
            None => None,
            Some(i2) => {
                let arg = number_at(s, i2);
                let i3 = match arg {
                    Some(a) => a.end as int,
                    None => i2,
                };
                if arg is None && !optional {
                    None
                } else {
                    match word_end(s, i3, seq![41u8]) {
                        None => None,
                        Some(i4) => match word_end(s, i4, seq![61u8]) {
                            None => None,
                            Some(i5) => match number_at(s, i5) {
                                None => None,
                                Some(v) => Some((arg, v)),
                            },
                        },
                    }
                }
            },
        },
    }
}

pub open spec fn pressure_word() -> Seq<u8> {
    seq![112u8, 114, 101, 115, 115, 117, 114, 101]
}

pub open spec fn at_word() -> Seq<u8> {
    seq![97u8, 116]
}

pub open spec fn lapse_word() -> Seq<u8> {
    seq![108u8, 97, 112, 115, 101]
}

pub open spec fn temperature_word() -> Seq<u8> {
    seq![116u8, 101, 109, 112, 101, 114, 97, 116, 117, 114, 101, 58]
}

/// The pressure definition at `i`.
pub open spec fn pressure_def_at(s: Seq<u8>, i: int) -> Option<PressureDef> {
    match call_at(s, i, pressure_word(), false) {
        Some((Some(h), p)) => Some(PressureDef { start_h: h, start_p: p }),
        _ => None,
    }
}

/// The temperature at one altitude, at `i`.
pub open spec fn temperature_at_at(s: Seq<u8>, i: int) -> Option<TemperatureAt> {
    match call_at(s, i, at_word(), false) {
        Some((Some(h), t)) => Some(TemperatureAt { start_h: h, start_t: t }),
        _ => None,
    }
}

/// The lapse rate definition at `i`.
pub open spec fn lapse_def_at(s: Seq<u8>, i: int) -> Option<LapseDef> {
    match call_at(s, i, lapse_word(), true) {
        Some((h, l)) => Some(LapseDef { start_h: h, lapse: l }),
        None => None,
    }
}

/// The lapse rate definitions that follow one another from `i`, as many as there are, and
/// where they end.
pub open spec fn lapses_from(s: Seq<u8>, i: int) -> (Seq<LapseDef>, int)
    decreases s.len() - i,
{
    match lapse_def_at(s, i) {
        Some(l) => if i < l.lapse.end as int <= s.len() {
            let rest = lapses_from(s, l.lapse.end as int);
            (seq![l] + rest.0, rest.1)
        } else {
            (seq![], i)
        },
        None => (seq![], i),
    }
}


/// The temperature definition at `i`: the temperature at one altitude, then one or more lapse
/// rates, and where they end.
pub open spec fn temperature_def_at(s: Seq<u8>, i: int) -> Option<(TemperatureAt, Seq<LapseDef>, int)> {
    match word_end(s, i, temperature_word()) {
        None => None,
        Some(i1) => match temperature_at_at(s, i1) {
            None => None,
            Some(t) => {
                let lapses = lapses_from(s, t.start_t.end as int);
                if lapses.0.len() >= 1 {
                    Some((t, lapses.0, lapses.1))
                } else {
                    None
                }
            },
        },
    }
}

/// A whole definition at the start of the text: the pressure definition, then the temperature
/// definition, and where it ends.
pub open spec fn atmosphere_at(s: Seq<u8>) -> Option<(PressureDef, TemperatureAt, Seq<LapseDef>, int)> {
    match pressure_def_at(s, 0) {
        None => None,
        Some(p) => match temperature_def_at(s, p.start_p.end as int) {
            None => None,
            Some((t, lapses, e)) => Some((p, t, lapses, e)),
        },
    }
}

fn skip_spaces(s: &[u8], i: usize) -> (r: usize)
    requires
        i <= s@.len(),
    ensures
        r == skip_space(s@, i as int),
        i <= r <= s@.len(),
{
    let mut j = i;
    while j < s.len() && (s[j] == 32 || s[j] == 9 || s[j] == 10 || s[j] == 13)
        invariant
            i <= j <= s@.len(),
            skip_space(s@, j as int) == skip_space(s@, i as int),
        decreases s@.len() - j,
    {
        j = j + 1;
    }
    j
}

fn skip_digits(s: &[u8], i: usize) -> (r: usize)
    requires
        i <= s@.len(),
    ensures
        r == digits_end(s@, i as int),
        i <= r <= s@.len(),
{
    let mut j = i;
    while j < s.len() && 48 <= s[j] && s[j] <= 57
        invariant
            i <= j <= s@.len(),
            digits_end(s@, j as int) == digits_end(s@, i as int),
        decreases s@.len() - j,
    {
        j = j + 1;
    }
    j
}

/// The number that begins exactly at byte `i`, if one does.
pub fn float(s: &[u8], i: usize) -> (r: Option<Span>)
    requires
        i <= s@.len(),
    ensures
        r == match number_end(s@, i as int) {
            Some(e) => Some(Span { start: i, end: e as usize }),
            None => None,
        },
        match r {
            Some(span) => i < span.end <= s@.len(),
            None => true,
        },
{
    let j = if i < s.len() && (s[i] == 43 || s[i] == 45) {
        i + 1
    } else {
        i
    };
    let d = skip_digits(s, j);
    if d == j {
        return None;
    }
    let f = if d < s.len() && d + 1 < s.len() && s[d] == 46 && 48 <= s[d + 1] && s[d + 1] <= 57 {
        skip_digits(s, d + 1)
    } else {
        d
    };
    if f < s.len() && s[f] == 101 {
        let k = if f + 1 < s.len() && (s[f + 1] == 43 || s[f + 1] == 45) {
            f + 2
        } else {
            f + 1
        };
        if k < s.len() && 48 <= s[k] && s[k] <= 57 {
            let e = skip_digits(s, k);
            return Some(Span { start: i, end: e });
        }
    }
    Some(Span { start: i, end: f })
}

fn number_after_space(s: &[u8], i: usize) -> (r: Option<Span>)
    requires
        i <= s@.len(),
    ensures
        r == number_at(s@, i as int),
        match r {
            Some(span) => i <= span.start < span.end <= s@.len(),
            None => true,
        },
{
    let j = skip_spaces(s, i);
    float(s, j)
}

fn word_after_space(s: &[u8], i: usize, w: &Vec<u8>) -> (r: Option<usize>)
    requires
        i <= s@.len(),
    ensures
        match word_end(s@, i as int, w@) {
            Some(e) => r == Some(e as usize) && i <= e <= s@.len(),
            None => r is None,
        },
{
    let j = skip_spaces(s, i);
    if w.len() > s.len() - j {
        return None;
    }
    let mut k: usize = 0;
    while k < w.len()
        invariant
            i <= j <= s@.len(),
            s@.len() <= usize::MAX,
            j == skip_space(s@, i as int),
            j + w@.len() <= s@.len(),
            k <= w@.len(),
            forall|t: int| 0 <= t < k ==> s@[j + t] == w@[t],
        decreases w@.len() - k,
    {
        if s[j + k] != w[k] {
            assert(s@.subrange(j as int, j + w@.len())[k as int] != w@[k as int]);
            return None;
        }
        k = k + 1;
    }
    assert(s@.subrange(j as int, j + w@.len()) =~= w@);
    Some(j + w.len())
}

fn call_after_space(s: &[u8], i: usize, name: &Vec<u8>, optional: bool) -> (r: Option<(Option<Span>, Span)>)
    requires
        i <= s@.len(),
    ensures
        r == call_at(s@, i as int, name@, optional),
        match r {
            Some((_, v)) => i < v.end <= s@.len(),
            None => true,
        },
{
    let n = s.len();
    assert(n == s@.len());
    let open_paren: Vec<u8> = vec![40u8];
    let close_paren: Vec<u8> = vec![41u8];
    let equals: Vec<u8> = vec![61u8];
    assert(open_paren@ =~= seq![40u8]);
    assert(close_paren@ =~= seq![41u8]);
    assert(equals@ =~= seq![61u8]);
    let i1 = match word_after_space(s, i, name) {
        Some(e) => e,
        None => return None,
    };
    let i2 = match word_after_space(s, i1, &open_paren) {
        Some(e) => e,
        None => return None,
    };
    let arg = number_after_space(s, i2);
    let i3 = match arg {
        Some(a) => a.end,
        None => i2,
    };
    if arg.is_none() && !optional {
        return None;
    }
    let i4 = match word_after_space(s, i3, &close_paren) {
        Some(e) => e,
        None => return None,
    };
    let i5 = match word_after_space(s, i4, &equals) {
        Some(e) => e,
        None => return None,
    };
    match number_after_space(s, i5) {
        Some(v) => Some((arg, v)),
        None => None,
    }
}

/// The pressure definition that follows optional whitespace at byte `i`, if one does.
pub fn pressure_def(s: &[u8], i: usize) -> (r: Option<PressureDef>)
    requires
        i <= s@.len(),
    ensures
        r == pressure_def_at(s@, i as int),
        match r {
            Some(d) => i < d.start_p.end <= s@.len(),
            None => true,
        },
{
    let w: Vec<u8> = vec![112u8, 114, 101, 115, 115, 117, 114, 101];
    assert(w@ =~= pressure_word());
    match call_after_space(s, i, &w, false) {
        Some((Some(h), p)) => Some(PressureDef { start_h: h, start_p: p }),
        _ => None,
    }
}

/// The temperature at one altitude that follows optional whitespace at byte `i`, if one does.
pub fn temperature_at(s: &[u8], i: usize) -> (r: Option<TemperatureAt>)
    requires
        i <= s@.len(),
    ensures
        r == temperature_at_at(s@, i as int),
        match r {
            Some(d) => i < d.start_t.end <= s@.len(),
            None => true,
        },
{
    let w: Vec<u8> = vec![97u8, 116];
    assert(w@ =~= at_word());
    match call_after_space(s, i, &w, false) {
        Some((Some(h), t)) => Some(TemperatureAt { start_h: h, start_t: t }),
        _ => None,
    }
}

/// The lapse rate definition that follows optional whitespace at byte `i`, if one does.
pub fn lapse_def(s: &[u8], i: usize) -> (r: Option<LapseDef>)
    requires
        i <= s@.len(),
    ensures
        r == lapse_def_at(s@, i as int),
        match r {
            Some(d) => i < d.lapse.end <= s@.len(),
            None => true,
        },
{
    let w: Vec<u8> = vec![108u8, 97, 112, 115, 101];
    assert(w@ =~= lapse_word());
    match call_after_space(s, i, &w, true) {
        Some((h, l)) => Some(LapseDef { start_h: h, lapse: l }),
        None => None,
    }
}

fn lapses(s: &[u8], i: usize) -> (r: (Vec<LapseDef>, usize))
    requires
        i <= s@.len(),
    ensures
        r.0@ == lapses_from(s@, i as int).0,
        r.1 == lapses_from(s@, i as int).1,
        i <= r.1 <= s@.len(),
    decreases s@.len() - i,
{
    match lapse_def(s, i) {
        Some(l) => {
            let (mut rest, end) = lapses(s, l.lapse.end);
            rest.insert(0, l);
            assert(rest@ =~= seq![l] + lapses_from(s@, l.lapse.end as int).0);
            (rest, end)
        },
        None => (Vec::new(), i),
    }
}

/// The temperature definition that follows optional whitespace at byte `i`, if one does, and
/// the position after it.
pub fn temperature_def(s: &[u8], i: usize) -> (r: Option<(TemperatureDef, usize)>)
    requires
        i <= s@.len(),
    ensures
        match (r, temperature_def_at(s@, i as int)) {
            (Some((d, e)), Some((t, lapses, e2))) => d.start == t && d.lapses@ == lapses && e == e2
                && e <= s@.len(),
            (None, None) => true,
            _ => false,
        },
{
    let n = s.len();
    assert(n == s@.len());
    let w: Vec<u8> = vec![116u8, 101, 109, 112, 101, 114, 97, 116, 117, 114, 101, 58];
    assert(w@ =~= temperature_word());
    let i1 = match word_after_space(s, i, &w) {
        Some(e) => e,
        None => return None,
    };
    let start = match temperature_at(s, i1) {
        Some(t) => t,
        None => return None,
    };
    let (lapses, end) = lapses(s, start.start_t.end);
    if lapses.len() == 0 {
        return None;
    }
    Some((TemperatureDef { start, lapses }, end))
}

/// Parses an atmosphere definition at the start of the text; the position after it comes
/// with it, and what follows is left alone.
pub fn parse_atmosphere(s: &[u8]) -> (r: Option<(AtmosphereDef, usize)>)
    ensures
        match (r, atmosphere_at(s@)) {
            (Some((d, e)), Some((p, t, lapses, e2))) => d.pressure == p && d.temperature.start == t
                && d.temperature.lapses@ == lapses && e == e2 && e <= s@.len(),
            (None, None) => true,
            _ => false,
        },
{
    let pressure = match pressure_def(s, 0) {
        Some(p) => p,
        None => return None,
    };
    match temperature_def(s, pressure.start_p.end) {
        Some((temperature, end)) => Some((AtmosphereDef { temperature, pressure }, end)),
        None => None,
    }
}


/// Why the lapse rates of a definition cannot be put in order.
#[derive(Clone, Copy, Debug, PartialEq, Eq, Structural)]
pub enum LapseError {
    /// Every lapse rate has an altitude: none starts the profile.
    NoFirstLapse,
    /// More than one lapse rate has no altitude.
    SeveralFirstLapses,
}

/// Splits the lapse rates of a definition into the first one, the only one without an
/// altitude, and the positions of the others in the order they were written.
pub fn split_lapses(lapses: &Vec<LapseDef>) -> (r: Result<(usize, Vec<usize>), LapseError>)
    ensures
        match r {
            Ok((first, rest)) => {
                &&& first < lapses@.len()
                &&& lapses@[first as int].start_h is None
                &&& forall|i: int| 0 <= i < lapses@.len() && i != first ==> lapses@[i].start_h is Some
                &&& rest@.len() == lapses@.len() - 1
                &&& forall|k: int| 0 <= k < rest@.len() ==> rest@[k] == if k < first {
                    k
                } else {
                    k + 1
                }
            },
            Err(LapseError::NoFirstLapse) => forall|i: int|
                0 <= i < lapses@.len() ==> lapses@[i].start_h is Some,
            Err(LapseError::SeveralFirstLapses) => exists|i: int, j: int|
                0 <= i < j < lapses@.len() && lapses@[i].start_h is None && lapses@[j].start_h is None,
        },
{
    let n = lapses.len();
    let mut first: Option<usize> = None;
    let mut i: usize = 0;
    while i < n
        invariant
            i <= n,
            n == lapses@.len(),
            match first {
                Some(f) => f < i && lapses@[f as int].start_h is None && forall|j: int|
                    0 <= j < i && j != f ==> lapses@[j].start_h is Some,
                None => forall|j: int| 0 <= j < i ==> lapses@[j].start_h is Some,
            },
        decreases n - i,
    {
        if lapses[i].start_h.is_none() {
            if let Some(f) = first {
                assert(lapses@[f as int].start_h is None && lapses@[i as int].start_h is None);
                return Err(LapseError::SeveralFirstLapses);
            }
            first = Some(i);
        }
        i = i + 1;
    }
    let first = match first {
        Some(f) => f,
        None => return Err(LapseError::NoFirstLapse),
    };
    let mut rest: Vec<usize> = Vec::new();
    let mut k: usize = 0;
    while k + 1 < n
        invariant
            first < n,
            k <= n - 1,
            rest@.len() == k,
            forall|q: int| 0 <= q < k ==> rest@[q] == if q < first {
                q
            } else {
                q + 1
            },
        decreases n - k,
    {
        rest.push(if k < first {
            k
        } else {
            k + 1
        });
        k = k + 1;
    }
    Ok((first, rest))
}

} // verus!
