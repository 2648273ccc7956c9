//! Lowering segment definitions into the intervals of a profile.
//!
//! A profile is defined by a first segment and further segments, each taking over at an
//! altitude. A gradient segment becomes one interval. A spline segment becomes one interval
//! per polynomial piece that reaches into the segment's range, clipped to that range, plus a
//! sloped interval before the spline's first control point and one after its last, where the
//! segment reaches beyond them: there the spline goes on linearly with its end slope. An
//! interval never begins below its segment's start: a sloped interval after a spline that
//! ends below the segment begins at the segment's start, and a polynomial piece is kept only
//! where it has a width of its own inside the segment, so the ends strictly ascend.
use vstd::prelude::*;
use crate::altitude::strictly_ascending;

verus! {

/// The shape of a segment definition, as far as the layout of intervals depends on it.
#[derive(Clone, Debug)]
pub enum SegmentShape {
    /// A constant rate of change with altitude.
    Linear,
    /// A spline through control points; `knots` holds the order keys of their altitudes,
    /// strictly ascending.
    Spline { knots: Vec<i64> },
}

/// Where the lower end of an interval comes from.
#[derive(Clone, Copy, Debug, PartialEq, Eq, Structural)]
pub enum Boundary {
    /// The altitude at which the given segment takes over.
    SegmentStart(usize),
    /// A control point of the spline of a segment: the segment, then the point's index.
    Knot(usize, usize),
}

/// What an interval holds.
#[derive(Clone, Copy, Debug, PartialEq, Eq, Structural)]
pub enum PieceKind {
    /// The constant gradient of a linear segment.
    Gradient,
    /// The spline's slope at its first control point, continued below it.
    LeadingSlope,
    /// A polynomial piece of the spline: piece `j` lies between control points `j` and
    /// `j + 1`.
    Cubic(usize),
    /// The spline's slope at its last control point, continued above it.
    TrailingSlope,
}

/// One interval of a lowered profile.
#[derive(Clone, Copy, Debug)]
pub struct Piece {
    /// The segment that the interval comes from.
    pub segment: usize,
    pub kind: PieceKind,
    /// The interval's lower end; `None` for the first interval, which is open below.
    pub start: Option<Boundary>,
}

/// The intervals of a profile in ascending order, and the order keys of the ends between
/// them: `ends[i]` closes interval `i` and opens interval `i + 1`.
#[derive(Clone, Debug)]
pub struct Layout {
    pub pieces: Vec<Piece>,
    pub ends: Vec<i64>,
}

/// The altitude at which segment `s` begins; the first one is open below.
pub open spec fn start_of(starts: Seq<i64>, s: int) -> Option<i64> {
    if s == 0 {
        None
    } else {
        Some(starts[s - 1])
    }
}

/// The altitude at which segment `s` ends; the last one is open above.
pub open spec fn end_of(starts: Seq<i64>, s: int) -> Option<i64> {
    if s < starts.len() {
        Some(starts[s])
    } else {
        None
    }
}

/// Segment definitions that can be lowered: one more shape than take-over altitudes, those
/// strictly ascending, and every spline with at least two control points in strictly
/// ascending order.
pub open spec fn valid_segments(shapes: Seq<SegmentShape>, starts: Seq<i64>) -> bool {
    &&& shapes.len() == starts.len() + 1
    &&& strictly_ascending(starts)
    &&& forall|s: int|
        0 <= s < shapes.len() ==> match #[trigger] shapes[s] {
            SegmentShape::Spline { knots } => knots@.len() >= 2 && strictly_ascending(knots@),
            SegmentShape::Linear => true,
        }
}

/// Whether a spline segment needs a sloped interval below its first control point.
pub open spec fn leads(start: Option<i64>, knots: Seq<i64>) -> bool {
    match start {
        Some(a) => a < knots[0],
        None => true,
    }
}

/// Whether a spline segment needs a sloped interval above its last control point.
pub open spec fn trails(end: Option<i64>, knots: Seq<i64>) -> bool {
    match end {
        Some(b) => b > knots.last(),
        None => true,
    }
}

/// A control point's altitude, raised to the segment's start where it lies below it.
pub open spec fn clip_key(start: Option<i64>, k: i64) -> i64 {
    match start {
        Some(a) => if a > k {
            a
        } else {
            k
        },
        None => k,
    }
}

/// The lower end of an interval that would begin at control point `j`, clipped to the
/// segment's start.
pub open spec fn clip(s: nat, start: Option<i64>, knots: Seq<i64>, j: nat) -> Boundary {
    match start {
        Some(a) => if a > knots[j as int] {
            Boundary::SegmentStart(s as usize)
        } else {
            Boundary::Knot(s as usize, j as usize)
        },
        None => Boundary::Knot(s as usize, j as usize),
    }
}

/// Whether polynomial piece `j` reaches into the segment's range with a width of its own: it
/// ends above the segment's start and begins below the segment's end.
pub open spec fn keeps_cubic(start: Option<i64>, end: Option<i64>, knots: Seq<i64>, j: int) -> bool {
    &&& match start {
        Some(a) => a < knots[j + 1],
        None => true,
    }
    &&& match end {
        Some(b) => b > clip_key(start, knots[j]),
        None => true,
    }
}

/// The intervals of the first `n` polynomial pieces of a spline segment.
pub open spec fn cubic_pieces(
    s: nat,
    start: Option<i64>,
    end: Option<i64>,
    knots: Seq<i64>,
    n: nat,
) -> Seq<Piece>
    decreases n,
{
    if n == 0 {
        seq![]
    } else {
        let j = (n - 1) as nat;
        cubic_pieces(s, start, end, knots, j) + if keeps_cubic(start, end, knots, j as int) {
            seq![Piece { segment: s as usize, kind: PieceKind::Cubic(j as usize), start: Some(clip(s, start, knots, j)) }]
        } else {
            seq![]
        }
    }
}

/// The intervals of spline segment `s`.
pub open spec fn spline_pieces(s: nat, start: Option<i64>, end: Option<i64>, knots: Seq<i64>) -> Seq<Piece> {
    let lead = Piece {
        segment: s as usize,
        kind: PieceKind::LeadingSlope,
        start: match start {
            Some(_) => Some(Boundary::SegmentStart(s as usize)),
            None => None,
        },
    };
    let last = (knots.len() - 1) as nat;
    let trail = Piece {
        segment: s as usize,
        kind: PieceKind::TrailingSlope,
        start: Some(clip(s, start, knots, last)),
    };
    (if leads(start, knots) {
        seq![lead]
    } else {
        seq![]
    }) + cubic_pieces(s, start, end, knots, last) + (if trails(end, knots) {
        seq![trail]
    } else {
        seq![]
    })
}

/// The intervals of segment `s`.
pub open spec fn segment_pieces(shapes: Seq<SegmentShape>, starts: Seq<i64>, s: nat) -> Seq<Piece> {
    match shapes[s as int] {
        SegmentShape::Linear => seq![
            Piece {
                segment: s as usize,
                kind: PieceKind::Gradient,
                start: if s == 0 {
                    None
                } else {
                    Some(Boundary::SegmentStart(s as usize))
                },
            },
        ],
        SegmentShape::Spline { knots } => spline_pieces(
            s,
            start_of(starts, s as int),
            end_of(starts, s as int),
            knots@,
        ),
    }
}

/// The intervals of the first `n` segments.
pub open spec fn pieces_upto(shapes: Seq<SegmentShape>, starts: Seq<i64>, n: nat) -> Seq<Piece>
    decreases n,
{
    if n == 0 {
        seq![]
    } else {
        pieces_upto(shapes, starts, (n - 1) as nat) + segment_pieces(shapes, starts, (n - 1) as nat)
    }
}

/// The intervals of a whole profile.
pub open spec fn lowered(shapes: Seq<SegmentShape>, starts: Seq<i64>) -> Seq<Piece> {
    pieces_upto(shapes, starts, shapes.len())
}

/// The order key of a boundary.
pub open spec fn boundary_key(shapes: Seq<SegmentShape>, starts: Seq<i64>, b: Boundary) -> i64 {
    match b {
        Boundary::SegmentStart(s) => starts[s - 1],
        Boundary::Knot(s, k) => match shapes[s as int] {
            SegmentShape::Spline { knots } => knots@[k as int],
            SegmentShape::Linear => 0,
        },
    }
}

/// The ends between the intervals are the keys of the intervals' lower ends; only the first
/// interval is open below.
pub open spec fn ends_match(
    shapes: Seq<SegmentShape>,
    starts: Seq<i64>,
    pieces: Seq<Piece>,
    ends: Seq<i64>,
) -> bool {
    &&& pieces.len() == ends.len() + 1
    &&& pieces[0].start is None
    &&& forall|i: int|
        0 <= i < ends.len() ==> (#[trigger] pieces[i + 1]).start is Some && ends[i] == boundary_key(
            shapes,
            starts,
            pieces[i + 1].start->Some_0,
        )
}

/// The order keys of the lower ends of all intervals but the first.
pub open spec fn end_keys(shapes: Seq<SegmentShape>, starts: Seq<i64>, pieces: Seq<Piece>) -> Seq<i64> {
    Seq::new(
        (pieces.len() - 1) as nat,
        |i: int| boundary_key(shapes, starts, pieces[i + 1].start->Some_0),
    )
}

fn push_piece(pieces: &mut Vec<Piece>, ends: &mut Vec<i64>, piece: Piece, key: i64)
    ensures
        final(pieces)@ == old(pieces)@.push(piece),
        final(ends)@ == if piece.start is Some {
            old(ends)@.push(key)
        } else {
            old(ends)@
        },
{
    pieces.push(piece);
    if piece.start.is_some() {
        ends.push(key);
    }
}


fn lower_spline(
    shapes: &Vec<SegmentShape>,
    starts: &Vec<i64>,
    s: usize,
    knots: &Vec<i64>,
    pieces: &mut Vec<Piece>,
    ends: &mut Vec<i64>,
)
    requires
        valid_segments(shapes@, starts@),
        s < shapes.len(),
        shapes@[s as int] == (SegmentShape::Spline { knots: *knots }),
        s == 0 ==> old(pieces)@.len() == 0 && old(ends)@.len() == 0,
        s > 0 ==> ends_match(shapes@, starts@, old(pieces)@, old(ends)@),
        s > 0 ==> forall|i: int| 0 <= i < old(ends)@.len() ==> old(ends)@[i] < starts@[s - 1],
        strictly_ascending(old(ends)@),
    ensures
        final(pieces)@ == old(pieces)@ + spline_pieces(
            s as nat,
            start_of(starts@, s as int),
            end_of(starts@, s as int),
            knots@,
        ),
        ends_match(shapes@, starts@, final(pieces)@, final(ends)@),
        strictly_ascending(final(ends)@),
        s < starts.len() ==> forall|i: int|
            0 <= i < final(ends)@.len() ==> final(ends)@[i] < starts@[s as int],
{
    let ghost sh = shapes@;
    let ghost st = starts@;
    assert(knots@.len() >= 2 && strictly_ascending(knots@)) by {
        assert(match sh[s as int] {
            SegmentShape::Spline { knots } => knots@.len() >= 2 && strictly_ascending(knots@),
            SegmentShape::Linear => true,
        });
    }
    let start: Option<i64> = if s == 0 {
        None
    } else {
        Some(starts[s - 1])
    };
    let end: Option<i64> = if s < starts.len() {
        Some(starts[s])
    } else {
        None
    };
    assert(start == start_of(st, s as int));
    assert(end == end_of(st, s as int));
    let m = knots.len();
    let first = knots[0];
    let last = knots[m - 1];
    let ghost before = pieces@;
    let lead_needed = match start {
        Some(a) => a < first,
        None => true,
    };
    if lead_needed {
        let b = match start {
            Some(_) => Some(Boundary::SegmentStart(s)),
            None => None,
        };
        let key = match start {
            Some(a) => a,
            None => 0,
        };
        push_piece(pieces, ends, Piece { segment: s, kind: PieceKind::LeadingSlope, start: b }, key);
        assert(ends_match(sh, st, pieces@, ends@)) by {
            assert forall|i: int| 0 <= i < ends@.len() implies (#[trigger] pieces@[i + 1]).start is Some
                && ends@[i] == boundary_key(sh, st, pieces@[i + 1].start->Some_0) by {
                if i + 1 < before.len() {
                    assert(pieces@[i + 1] == before[i + 1]);
                }
            }
        }
    }
    let ghost after_lead = pieces@;
    assert(after_lead == before + (if leads(start, knots@) {
        seq![Piece { segment: s, kind: PieceKind::LeadingSlope, start: match start {
            Some(_) => Some(Boundary::SegmentStart(s)),
            None => None,
        } }]
    } else {
        seq![]
    }));
    let mut j: usize = 0;
    while j + 1 < m
        invariant
            sh == shapes@,
            st == starts@,
            valid_segments(sh, st),
            s < sh.len(),
            sh[s as int] == (SegmentShape::Spline { knots: *knots }),
            m == knots@.len(),
            m >= 2,
            strictly_ascending(knots@),
            start == start_of(st, s as int),
            end == end_of(st, s as int),
            j + 1 <= m,
            pieces@ == after_lead + cubic_pieces(s as nat, start, end, knots@, j as nat),
            ends_match(sh, st, pieces@, ends@),
            strictly_ascending(ends@),
            forall|i: int| 0 <= i < ends@.len() ==> ends@[i] < clip_key(start, knots@[j as int]),
            end is Some ==> forall|i: int| 0 <= i < ends@.len() ==> ends@[i] < end->Some_0,
            end is Some && start is Some ==> start->Some_0 < end->Some_0,
        decreases m - j,
    {
        let k = knots[j];
        let upper = knots[j + 1];
        let mut b = Boundary::Knot(s, j);
        let mut key = k;
        if let Some(a) = start {
            if a > k {
                b = Boundary::SegmentStart(s);
                key = a;
            }
        }
        assert(b == clip(s as nat, start, knots@, j as nat));
        assert(key == clip_key(start, k));
        let below_end = match start {
            Some(a) => a < upper,
            None => true,
        };
        let above_start = match end {
            Some(e) => e > key,
            None => true,
        };
        let ghost prev_pieces = pieces@;
        if below_end && above_start {
            let piece = Piece { segment: s, kind: PieceKind::Cubic(j), start: Some(b) };
            push_piece(pieces, ends, piece, key);
            assert(ends_match(sh, st, pieces@, ends@)) by {
                assert forall|i: int| 0 <= i < ends@.len() implies (#[trigger] pieces@[i + 1]).start is Some
                    && ends@[i] == boundary_key(sh, st, pieces@[i + 1].start->Some_0) by {
                    if i + 1 < prev_pieces.len() {
                        assert(pieces@[i + 1] == prev_pieces[i + 1]);
                    } else {
                        assert(pieces@[i + 1] == piece);
                    }
                }
            }
        }
        assert(clip_key(start, k) <= clip_key(start, upper)) by {
            assert(k < upper);
        }
        assert(pieces@ == after_lead + cubic_pieces(s as nat, start, end, knots@, (j + 1) as nat));
        j = j + 1;
    }
    let ghost after_cubic = pieces@;
    let trail_needed = match end {
        Some(e) => e > last,
        None => true,
    };
    if trail_needed {
        let mut b = Boundary::Knot(s, m - 1);
        let mut key = last;
        if let Some(a) = start {
            if a > last {
                b = Boundary::SegmentStart(s);
                key = a;
            }
        }
        assert(b == clip(s as nat, start, knots@, (m - 1) as nat));
        let piece = Piece { segment: s, kind: PieceKind::TrailingSlope, start: Some(b) };
        push_piece(pieces, ends, piece, key);
        assert(ends_match(sh, st, pieces@, ends@)) by {
            assert forall|i: int| 0 <= i < ends@.len() implies (#[trigger] pieces@[i + 1]).start is Some
                && ends@[i] == boundary_key(sh, st, pieces@[i + 1].start->Some_0) by {
                if i + 1 < after_cubic.len() {
                    assert(pieces@[i + 1] == after_cubic[i + 1]);
                } else {
                    assert(pieces@[i + 1] == piece);
                }
            }
        }
    }
    assert(pieces@ == before + spline_pieces(s as nat, start, end, knots@));
}

/// Lowers segment definitions into the intervals of a profile: `shapes[0]` is the first
/// segment, and `shapes[s]` takes over at `starts[s - 1]`.
pub fn lower_segments(shapes: &Vec<SegmentShape>, starts: &Vec<i64>) -> (r: Layout)
    requires
        valid_segments(shapes@, starts@),
    ensures
        r.pieces@ == lowered(shapes@, starts@),
        ends_match(shapes@, starts@, r.pieces@, r.ends@),
        r.ends@ == end_keys(shapes@, starts@, r.pieces@),
        strictly_ascending(r.ends@),
{
    let mut pieces: Vec<Piece> = Vec::new();
    let mut ends: Vec<i64> = Vec::new();
    let mut s: usize = 0;
    while s < shapes.len()
        invariant
            valid_segments(shapes@, starts@),
            s <= shapes.len(),
            pieces@ == pieces_upto(shapes@, starts@, s as nat),
            s == 0 ==> pieces@.len() == 0 && ends@.len() == 0,
            s > 0 ==> ends_match(shapes@, starts@, pieces@, ends@),
            strictly_ascending(ends@),
            0 < s < shapes.len() ==> forall|i: int| 0 <= i < ends@.len() ==> ends@[i] < starts@[s - 1],
        decreases shapes.len() - s,
    {
        let ghost prev_pieces = pieces@;
        let ghost prev_ends = ends@;
        match &shapes[s] {
            SegmentShape::Linear => {
                let start = if s == 0 {
                    None
                } else {
                    Some(Boundary::SegmentStart(s))
                };
                let key = if s == 0 {
                    0
                } else {
                    starts[s - 1]
                };
                let piece = Piece { segment: s, kind: PieceKind::Gradient, start };
                push_piece(&mut pieces, &mut ends, piece, key);
                assert(ends_match(shapes@, starts@, pieces@, ends@)) by {
                    assert forall|i: int| 0 <= i < ends@.len() implies (#[trigger] pieces@[i + 1]).start is Some
                        && ends@[i] == boundary_key(shapes@, starts@, pieces@[i + 1].start->Some_0) by {
                        if i + 1 < prev_pieces.len() {
                            assert(pieces@[i + 1] == prev_pieces[i + 1]);
                        } else {
                            assert(pieces@[i + 1] == piece);
                        }
                    }
                }
                if s + 1 < shapes.len() {
                    assert forall|i: int| 0 <= i < ends@.len() implies ends@[i] < starts@[s as int] by {
                        if s > 0 {
                            assert(starts@[s - 1] < starts@[s as int]);
                            if i < prev_ends.len() {
                                assert(prev_ends[i] < starts@[s - 1]);
                            }
                        }
                    }
                }
                assert forall|a: int, b: int| 0 <= a < b < ends@.len() implies ends@[a] < ends@[b] by {
                    if b >= prev_ends.len() {
                        assert(prev_ends[a] < starts@[s - 1]);
                    }
                }
            },
            SegmentShape::Spline { knots } => {
                lower_spline(shapes, starts, s, knots, &mut pieces, &mut ends);
            },
        }
        assert(pieces@ == pieces_upto(shapes@, starts@, (s + 1) as nat));
        s = s + 1;
    }
    assert(ends@ =~= end_keys(shapes@, starts@, pieces@));
    Layout { pieces, ends }
}

} // verus!
