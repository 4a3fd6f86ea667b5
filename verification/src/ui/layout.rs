//! Where things stand on the screen.
//!
//! The solver of `ratatui` divides an area among shares. Where all can be had,
//! every share gets what it asks for. Where there is too little room, minima
//! come before lengths; which of several lengths, or of several minima, yields
//! is the solver's own choice, and may differ from one call to the next.

use ratatui::layout::{Constraint, Direction, Layout, Rect};

use vstd::prelude::*;

verus! {

/// A rectangle of cells.
#[derive(Clone, Copy, Debug, PartialEq, Eq, Structural)]
pub struct Area {
    pub x: u16,
    pub y: u16,
    pub width: u16,
    pub height: u16,
}

/// How an area is divided.
#[derive(Clone, Copy, Debug, PartialEq, Eq, Structural)]
pub enum Along {
    /// From top to bottom.
    Vertical,
    /// From left to right.
    Horizontal,
}

/// What a part of an area asks for.
#[derive(Clone, Copy, Debug, PartialEq, Eq, Structural)]
pub enum Share {
    /// This many cells.
    Length(u16),
    /// At least this many cells.
    Min(u16),
    /// This many hundredths.
    Percentage(u16),
    /// This fraction.
    Ratio(u32, u32),
}

/// A part has the width of the area if the area is divided from top to bottom,
/// and its height otherwise, and starts where the area starts.
pub open spec fn spans_area(along: Along, area: Area, part: Area) -> bool {
    match along {
        Along::Vertical => part.x == area.x && part.width == area.width,
        Along::Horizontal => part.y == area.y && part.height == area.height,
    }
}

/// A part lies inside an area.
pub open spec fn is_inside(area: Area, part: Area) -> bool {
    &&& area.x <= part.x
    &&& part.x + part.width <= area.x + area.width
    &&& area.y <= part.y
    &&& part.y + part.height <= area.y + area.height
}

/// Where an area begins in the direction in which it is divided.
pub open spec fn begin_of(along: Along, area: Area) -> int {
    match along {
        Along::Vertical => area.y as int,
        Along::Horizontal => area.x as int,
    }
}

/// Where an area ends in the direction in which it is divided.
pub open spec fn end_of(along: Along, area: Area) -> int {
    match along {
        Along::Vertical => area.y + area.height,
        Along::Horizontal => area.x + area.width,
    }
}

/// The last place up to which an area can be divided: no place is beyond 16
/// bits.
pub open spec fn edge_of(along: Along, area: Area) -> int {
    if end_of(along, area) > u16::MAX {
        u16::MAX as int
    } else {
        end_of(along, area)
    }
}

/// How many cells an area has that can be divided.
pub open spec fn extent_of(along: Along, area: Area) -> int {
    edge_of(along, area) - begin_of(along, area)
}

/// How many cells a part has in the direction of the division.
pub open spec fn size_of(along: Along, part: Area) -> int {
    end_of(along, part) - begin_of(along, part)
}

/// The whole number that is nearest to `a / b`; of two, the greater.
pub open spec fn nearest(a: int, b: int) -> int {
    (2 * a + b) / (2 * b)
}

/// The cells that a share asks for.
pub open spec fn cells_of(share: Share) -> nat {
    match share {
        Share::Length(n) => n as nat,
        Share::Min(n) => n as nat,
        _ => 0,
    }
}

/// The cells that a share cannot do without.
pub open spec fn least_of(share: Share) -> nat {
    match share {
        Share::Min(n) => n as nat,
        _ => 0,
    }
}

/// The cells that all shares ask for.
pub open spec fn cells_of_all(shares: Seq<Share>) -> nat
    decreases shares.len(),
{
    if shares.len() == 0 {
        0
    } else {
        cells_of_all(shares.drop_last()) + cells_of(shares.last())
    }
}

/// The cells that all shares cannot do without.
pub open spec fn least_of_all(shares: Seq<Share>) -> nat
    decreases shares.len(),
{
    if shares.len() == 0 {
        0
    } else {
        least_of_all(shares.drop_last()) + least_of(shares.last())
    }
}

/// Every minimum fits 15 bits.
pub open spec fn minima_count(shares: Seq<Share>) -> bool {
    forall|i: int| 0 <= i < shares.len() ==> least_of(#[trigger] shares[i]) <= i16::MAX
}

/// The columns of `slots` recognisers, all of the same share; one if there are
/// none.
pub open spec fn equal_shares(slots: nat) -> Seq<Share> {
    let n = if slots == 0 {
        1nat
    } else {
        slots
    };
    Seq::new(n, |i: int| Share::Ratio(1, n as u32))
}

/// At most three shares that count cells.
pub open spec fn count_cells(shares: Seq<Share>) -> bool {
    &&& shares.len() <= 3
    &&& forall|i: int| 0 <= i < shares.len() ==> (#[trigger] shares[i]) is Length || shares[i] is Min
}

/// Two shares in hundredths.
pub open spec fn are_percentages(shares: Seq<Share>) -> bool {
    shares.len() == 2 && shares[0] is Percentage && shares[1] is Percentage
}

/// Equal fractions of the whole, fewer than two hundred.
pub open spec fn are_equal(shares: Seq<Share>) -> bool {
    0 < shares.len() < 200 && shares == equal_shares(shares.len())
}

/// Shares whose parts follow each other without a gap.
pub open spec fn leave_no_gap(shares: Seq<Share>) -> bool {
    count_cells(shares) || are_percentages(shares) || are_equal(shares)
}

/// Shares whose parts fill the area: one of them takes all that is left, or
/// together they ask for the whole.
pub open spec fn fill_area(shares: Seq<Share>) -> bool {
    ||| count_cells(shares) && exists|i: int| 0 <= i < shares.len() && (#[trigger] shares[i]) is Min
    ||| are_percentages(shares) && shares[0]->Percentage_0 + shares[1]->Percentage_0 >= 100
    ||| are_equal(shares)
}

/// Parts of which each begins where the one before ends.
pub open spec fn follow_each_other(along: Along, parts: Seq<Area>) -> bool {
    forall|i: int, j: int|
        0 <= i && j == i + 1 && j < parts.len() ==> begin_of(along, #[trigger] parts[j]) == end_of(
            along,
            #[trigger] parts[i],
        )
}

/// What one of `shares` that counts cells gets of an extent. Minima are met as
/// long as they fit, and exceeded only when all shares have what they ask for.
/// A length is never exceeded, met as long as all shares fit, and gets nothing
/// before the minima are met.
pub open spec fn gets_cells(extent: int, shares: Seq<Share>, share: Share, size: int) -> bool {
    let all = cells_of_all(shares);
    let least = least_of_all(shares);
    match share {
        Share::Length(n) => {
            &&& size <= n
            &&& all <= extent ==> size == n
            &&& extent <= least ==> size == 0
        },
        Share::Min(n) => {
            &&& least <= extent ==> size >= n
            &&& least <= extent <= all ==> size == n
        },
        _ => true,
    }
}

/// Every part has the size that its share asks for, as far as that can be had.
pub open spec fn sized_as_asked(
    along: Along,
    area: Area,
    shares: Seq<Share>,
    parts: Seq<Area>,
) -> bool {
    let begin = begin_of(along, area);
    let extent = extent_of(along, area);
    &&& count_cells(shares) && minima_count(shares) ==> forall|i: int|
        0 <= i < parts.len() ==> gets_cells(
            extent,
            shares,
            shares[i],
            size_of(along, #[trigger] parts[i]),
        )
    &&& are_percentages(shares) && shares[0]->Percentage_0 + shares[1]->Percentage_0 <= 100 ==> {
        let (p, q) = (shares[0]->Percentage_0, shares[1]->Percentage_0);
        &&& end_of(along, parts[0]) == begin + nearest(extent * p, 100)
        &&& end_of(along, parts[1]) == begin + nearest(extent * (p + q), 100)
    }
    &&& are_equal(shares) && shares.len() <= 100 ==> forall|i: int|
        0 <= i < parts.len() ==> begin_of(along, #[trigger] parts[i]) == begin + nearest(
            extent * i,
            shares.len() as int,
        )
}

/// `parts` are a division of an area among `shares`: they span the area and lie
/// inside it, the first begins where the area begins, and they follow each
/// other, reach the end and have their sizes as far as that is said of the
/// shares.
pub open spec fn divides(along: Along, area: Area, shares: Seq<Share>, parts: Seq<Area>) -> bool {
    &&& parts.len() == shares.len()
    &&& forall|i: int|
        0 <= i < parts.len() ==> spans_area(along, area, #[trigger] parts[i]) && is_inside(
            area,
            parts[i],
        )
    &&& parts.len() > 0 ==> begin_of(along, parts[0]) == begin_of(along, area)
    &&& leave_no_gap(shares) ==> follow_each_other(along, parts)
    &&& fill_area(shares) ==> end_of(along, parts.last()) == edge_of(along, area)
    &&& sized_as_asked(along, area, shares, parts)
}

/// `Layout::split`, without margins and spacing, and aligned to the start: there
/// is one part for each share, every part spans the area across the direction of
/// the division and lies inside it, and the first begins where the area begins.
///
/// The solver weighs what it is asked for: the space between parts most, then
/// minima, lengths, percentages and fractions, and the wish to grow least. So
/// parts follow each other without a gap, reach the end of the area and have
/// their sizes, for the shares of which that is said. Ends are rounded to
/// hundredths of a cell and then to cells, which is the same as rounding to
/// cells for percentages and for up to 100 equal fractions. A minimum goes
/// through 15 bits.
///
/// Nothing is said of other shares, whose parts can come a cell apart when their
/// ends are rounded, nor of how lengths, minima or percentages that do not fit
/// yield to each other, which the solver leaves open, nor of how several minima
/// share what is left.
#[verifier::external_body]
fn split_area(along: Along, area: Area, shares: &[Share]) -> (r: Vec<Area>)
    ensures
        divides(along, area, shares@, r@),
{
    let direction = match along {
        Along::Vertical => Direction::Vertical,
        Along::Horizontal => Direction::Horizontal,
    };
    let wanted = shares.iter().map(|s| match *s {
        Share::Length(n) => Constraint::Length(n),
        Share::Min(n) => Constraint::Min(n),
        Share::Percentage(n) => Constraint::Percentage(n),
        Share::Ratio(n, d) => Constraint::Ratio(n, d),
    });
    let Area { x, y, width, height } = area;
    let rect = Rect { x, y, width, height };
    let parts = Layout::default().direction(direction).constraints(wanted).split(rect);
    parts.iter().map(|p| Area { x: p.x, y: p.y, width: p.width, height: p.height }).collect()
}

// ─── What each screen asks for ─────────────────────────────────────────

/// The rows of the main screen: title, body, log.
pub fn main_rows() -> (r: Vec<Share>)
    ensures
        r@ == seq![Share::Length(3), Share::Min(8), Share::Length(6)],
{
    let r: Vec<Share> = vec![Share::Length(3), Share::Min(8), Share::Length(6)];
    proof {
        assert(r@ =~= seq![Share::Length(3), Share::Min(8), Share::Length(6)]);
    }
    r
}

/// The body of the main screen beside media: media, recognisers.
pub fn media_columns() -> (r: Vec<Share>)
    ensures
        r@ == seq![Share::Percentage(34), Share::Percentage(66)],
{
    let r: Vec<Share> = vec![Share::Percentage(34), Share::Percentage(66)];
    proof {
        assert(r@ =~= seq![Share::Percentage(34), Share::Percentage(66)]);
    }
    r
}

/// The columns of `slots` recognisers, all of the same share.
pub fn slot_columns(slots: usize) -> (r: Vec<Share>)
    requires
        slots <= u32::MAX,
    ensures
        r@ == equal_shares(slots as nat),
{
    let n: usize = if slots == 0 {
        1
    } else {
        slots
    };
    let mut r: Vec<Share> = Vec::new();
    let mut i: usize = 0;
    while i < n
        invariant
            i <= n <= u32::MAX,
            n == equal_shares(slots as nat).len(),
            slots <= u32::MAX,
            r@ == equal_shares(slots as nat).take(i as int),
        decreases n - i,
    {
        r.push(Share::Ratio(1, n as u32));
        proof {
            let all = equal_shares(slots as nat);
            assert(all.take(i + 1) =~= all.take(i as int).push(all[i as int]));
        }
        i = i + 1;
    }
    proof {
        let all = equal_shares(slots as nat);
        assert(all.take(n as int) =~= all);
    }
    r
}

/// A column of a recogniser: what it is saying, what it has said.
pub fn slot_rows() -> (r: Vec<Share>)
    ensures
        r@ == seq![Share::Length(5), Share::Min(5)],
{
    let r: Vec<Share> = vec![Share::Length(5), Share::Min(5)];
    proof {
        assert(r@ =~= seq![Share::Length(5), Share::Min(5)]);
    }
    r
}

/// The rows of a screen with a title, a body of at least `body` rows, and a
/// foot.
pub fn framed_rows(body: u16) -> (r: Vec<Share>)
    ensures
        r@ == seq![Share::Length(3), Share::Min(body), Share::Length(3)],
{
    let r: Vec<Share> = vec![Share::Length(3), Share::Min(body), Share::Length(3)];
    proof {
        assert(r@ =~= seq![Share::Length(3), Share::Min(body), Share::Length(3)]);
    }
    r
}

/// The body of the screen on which models are chosen: list, panel.
pub fn selection_rows(panel: u16) -> (r: Vec<Share>)
    ensures
        r@ == seq![Share::Min(6), Share::Length(panel)],
{
    let r: Vec<Share> = vec![Share::Min(6), Share::Length(panel)];
    proof {
        assert(r@ =~= seq![Share::Min(6), Share::Length(panel)]);
    }
    r
}

/// The body of the screen on which a source is chosen: microphones, outputs,
/// files.
pub fn device_rows(inputs: u16, outputs: u16, samples: u16) -> (r: Vec<Share>)
    ensures
        r@ == seq![Share::Length(inputs), Share::Length(outputs), Share::Min(samples)],
{
    let r: Vec<Share> = vec![Share::Length(inputs), Share::Length(outputs), Share::Min(samples)];
    proof {
        assert(r@ =~= seq![Share::Length(inputs), Share::Length(outputs), Share::Min(samples)]);
    }
    r
}

/// The screen on which a source is tried out: text, level, what keys do.
pub fn preview_rows() -> (r: Vec<Share>)
    ensures
        r@ == seq![Share::Length(7), Share::Length(3), Share::Min(1)],
{
    let r: Vec<Share> = vec![Share::Length(7), Share::Length(3), Share::Min(1)];
    proof {
        assert(r@ =~= seq![Share::Length(7), Share::Length(3), Share::Min(1)]);
    }
    r
}

// ─── Areas ─────────────────────────────────────────────────────────────

/// Three areas from top to bottom.
#[derive(Clone, Copy, Debug, PartialEq, Eq, Structural)]
pub struct ThreeRows {
    pub top: Area,
    pub middle: Area,
    pub bottom: Area,
}

/// The parts of a division into three rows.
pub fn rows_of(parts: &[Area]) -> (r: ThreeRows)
    requires
        parts@.len() == 3,
    ensures
        r.top == parts@[0],
        r.middle == parts@[1],
        r.bottom == parts@[2],
{
    ThreeRows { top: parts[0], middle: parts[1], bottom: parts[2] }
}

/// The parts of a division into two.
pub fn pair_of(parts: &[Area]) -> (r: (Area, Area))
    requires
        parts@.len() == 2,
    ensures
        r.0 == parts@[0],
        r.1 == parts@[1],
{
    (parts[0], parts[1])
}

/// Divides an area into three rows.
pub fn split_rows(area: Area, shares: &[Share]) -> (r: ThreeRows)
    requires
        shares@.len() == 3,
    ensures
        divides(Along::Vertical, area, shares@, seq![r.top, r.middle, r.bottom]),
{
    let parts = split_area(Along::Vertical, area, shares);
    let r = rows_of(parts.as_slice());
    proof {
        assert(parts@ =~= seq![r.top, r.middle, r.bottom]);
    }
    r
}

/// Divides an area into two parts.
pub fn split_two(along: Along, area: Area, shares: &[Share]) -> (r: (Area, Area))
    requires
        shares@.len() == 2,
    ensures
        divides(along, area, shares@, seq![r.0, r.1]),
{
    let parts = split_area(along, area, shares);
    let r = pair_of(parts.as_slice());
    proof {
        assert(parts@ =~= seq![r.0, r.1]);
    }
    r
}

/// Two lengths `a` and `b` and a minimum got `x`, `y` and `z` cells, together
/// all there are. A length is never exceeded; both are met where all fit; and
/// where not all fit, the minimum is met before a length gets anything.
pub open spec fn lengths_kept(extent: int, a: nat, x: int, b: nat, y: int, least: nat, z: int) -> bool {
    &&& x + y + z == extent
    &&& 0 <= x <= a && 0 <= y <= b
    &&& a + b + least <= extent ==> x == a && y == b
    &&& least <= extent <= a + b + least ==> z == least
    &&& extent <= least ==> x == 0 && y == 0
}

/// Three rows stand one below the other and fill the area.
pub open spec fn rows_fill(area: Area, top: Area, middle: Area, bottom: Area) -> bool {
    &&& spans_area(Along::Vertical, area, top) && is_inside(area, top)
    &&& spans_area(Along::Vertical, area, middle) && is_inside(area, middle)
    &&& spans_area(Along::Vertical, area, bottom) && is_inside(area, bottom)
    &&& top.y == area.y
    &&& middle.y == top.y + top.height
    &&& bottom.y == middle.y + middle.height
    &&& bottom.y + bottom.height == edge_of(Along::Vertical, area)
}

/// Two rows stand one below the other and fill the area.
pub open spec fn pair_fills(area: Area, top: Area, bottom: Area) -> bool {
    &&& spans_area(Along::Vertical, area, top) && is_inside(area, top)
    &&& spans_area(Along::Vertical, area, bottom) && is_inside(area, bottom)
    &&& top.y == area.y
    &&& bottom.y == top.y + top.height
    &&& bottom.y + bottom.height == edge_of(Along::Vertical, area)
}

/// A division into two lengths and a minimum between them.
proof fn lemma_min_in_the_middle(area: Area, a: u16, least: u16, b: u16, r: ThreeRows)
    requires
        divides(
            Along::Vertical,
            area,
            seq![Share::Length(a), Share::Min(least), Share::Length(b)],
            seq![r.top, r.middle, r.bottom],
        ),
    ensures
        rows_fill(area, r.top, r.middle, r.bottom),
        least <= i16::MAX ==> lengths_kept(
            extent_of(Along::Vertical, area),
            a as nat,
            r.top.height as int,
            b as nat,
            r.bottom.height as int,
            least as nat,
            r.middle.height as int,
        ),
{
    let shares = seq![Share::Length(a), Share::Min(least), Share::Length(b)];
    let parts = seq![r.top, r.middle, r.bottom];
    reveal_with_fuel(cells_of_all, 4);
    reveal_with_fuel(least_of_all, 4);
    assert(shares[0] is Length && shares[1] is Min && shares[2] is Length);
    assert(parts[0] == r.top && parts[1] == r.middle && parts[2] == r.bottom);
}

/// A division into two lengths and a minimum after them.
proof fn lemma_min_at_the_end(area: Area, a: u16, b: u16, least: u16, r: ThreeRows)
    requires
        divides(
            Along::Vertical,
            area,
            seq![Share::Length(a), Share::Length(b), Share::Min(least)],
            seq![r.top, r.middle, r.bottom],
        ),
    ensures
        rows_fill(area, r.top, r.middle, r.bottom),
        least <= i16::MAX ==> lengths_kept(
            extent_of(Along::Vertical, area),
            a as nat,
            r.top.height as int,
            b as nat,
            r.middle.height as int,
            least as nat,
            r.bottom.height as int,
        ),
{
    let shares = seq![Share::Length(a), Share::Length(b), Share::Min(least)];
    let parts = seq![r.top, r.middle, r.bottom];
    reveal_with_fuel(cells_of_all, 4);
    reveal_with_fuel(least_of_all, 4);
    assert(shares[0] is Length && shares[1] is Length && shares[2] is Min);
    assert(parts[0] == r.top && parts[1] == r.middle && parts[2] == r.bottom);
}

/// A division into a length and a minimum below it.
proof fn lemma_length_then_min(area: Area, a: u16, least: u16, r: (Area, Area))
    requires
        least <= i16::MAX,
        divides(
            Along::Vertical,
            area,
            seq![Share::Length(a), Share::Min(least)],
            seq![r.0, r.1],
        ),
    ensures
        pair_fills(area, r.0, r.1),
        lengths_kept(
            extent_of(Along::Vertical, area),
            a as nat,
            r.0.height as int,
            0,
            0,
            least as nat,
            r.1.height as int,
        ),
{
    let shares = seq![Share::Length(a), Share::Min(least)];
    let parts = seq![r.0, r.1];
    reveal_with_fuel(cells_of_all, 3);
    reveal_with_fuel(least_of_all, 3);
    assert(shares[0] is Length && shares[1] is Min);
    assert(parts[0] == r.0 && parts[1] == r.1);
}

/// A division into a minimum and a length below it.
proof fn lemma_min_then_length(area: Area, least: u16, a: u16, r: (Area, Area))
    requires
        least <= i16::MAX,
        divides(
            Along::Vertical,
            area,
            seq![Share::Min(least), Share::Length(a)],
            seq![r.0, r.1],
        ),
    ensures
        pair_fills(area, r.0, r.1),
        lengths_kept(
            extent_of(Along::Vertical, area),
            a as nat,
            r.1.height as int,
            0,
            0,
            least as nat,
            r.0.height as int,
        ),
{
    let shares = seq![Share::Min(least), Share::Length(a)];
    let parts = seq![r.0, r.1];
    reveal_with_fuel(cells_of_all, 3);
    reveal_with_fuel(least_of_all, 3);
    assert(shares[0] is Min && shares[1] is Length);
    assert(parts[0] == r.0 && parts[1] == r.1);
}

// ─── The main screen ───────────────────────────────────────────────────

/// The areas of one recogniser.
#[derive(Clone, Copy, Debug, PartialEq, Eq, Structural)]
pub struct ColumnAreas {
    pub partial: Area,
    pub finals: Area,
}

/// The areas of the main screen.
pub struct ScreenAreas {
    pub top: Area,
    pub media: Option<Area>,
    pub columns: Vec<ColumnAreas>,
    pub log: Area,
}

/// The main screen from its parts: the rows, the halves of the middle row if
/// there is media, and the two parts of each column.
pub fn screen_of(rows: ThreeRows, body: Option<(Area, Area)>, columns: Vec<(Area, Area)>) -> (r:
    ScreenAreas)
    ensures
        r.top == rows.top,
        r.log == rows.bottom,
        r.media == (match body {
            Some((left, _)) => Some(left),
            None => None,
        }),
        r.columns@.len() == columns@.len(),
        forall|i: int|
            0 <= i < columns@.len() ==> (#[trigger] r.columns@[i]) == (ColumnAreas {
                partial: columns@[i].0,
                finals: columns@[i].1,
            }),
{
    let mut out: Vec<ColumnAreas> = Vec::new();
    let mut i: usize = 0;
    while i < columns.len()
        invariant
            i <= columns@.len(),
            out@.len() == i,
            forall|j: int|
                0 <= j < i ==> (#[trigger] out@[j]) == (ColumnAreas {
                    partial: columns@[j].0,
                    finals: columns@[j].1,
                }),
        decreases columns@.len() - i,
    {
        let (partial, finals) = columns[i];
        out.push(ColumnAreas { partial, finals });
        i = i + 1;
    }
    let media = match body {
        Some((left, _)) => Some(left),
        None => None,
    };
    ScreenAreas { top: rows.top, media, columns: out, log: rows.bottom }
}

/// An area stands between the title and the log, and reaches from one to the
/// other.
pub open spec fn is_body(r: ScreenAreas, part: Area) -> bool {
    part.y == r.top.y + r.top.height && part.y + part.height == r.log.y
}

/// Where the columns begin: behind the media if there is any.
pub open spec fn columns_begin(area: Area, r: ScreenAreas) -> int {
    match r.media {
        Some(m) => m.x + m.width,
        None => area.x as int,
    }
}

/// How many rows there are between the title and the log.
pub open spec fn body_rows(r: ScreenAreas) -> int {
    r.log.y - (r.top.y + r.top.height)
}

/// The two parts of a column lie inside the area and stand one above the other,
/// from the title down to the log: 5 rows for what is being said, and at least 5
/// for what has been said.
pub open spec fn column_ok(area: Area, r: ScreenAreas, c: ColumnAreas) -> bool {
    &&& is_inside(area, c.partial) && is_inside(area, c.finals)
    &&& c.partial.x == c.finals.x && c.partial.width == c.finals.width
    &&& c.partial.y == r.top.y + r.top.height
    &&& c.finals.y == c.partial.y + c.partial.height
    &&& c.finals.y + c.finals.height == r.log.y
    &&& lengths_kept(
        body_rows(r),
        5,
        c.partial.height as int,
        0,
        0,
        5,
        c.finals.height as int,
    )
}

/// The columns stand side by side, each where the one before ends, from where
/// they begin to the end of the area.
pub open spec fn columns_tile(area: Area, r: ScreenAreas) -> bool {
    let n = r.columns@.len() as int;
    &&& n > 0 ==> r.columns@[0].partial.x == columns_begin(area, r)
    &&& forall|i: int, j: int|
        0 <= i && j == i + 1 && j < n ==> (#[trigger] r.columns@[j]).partial.x == (
        #[trigger] r.columns@[i]).partial.x + r.columns@[i].partial.width
    &&& n > 0 ==> end_of(Along::Horizontal, r.columns@[n - 1].partial) == edge_of(
        Along::Horizontal,
        area,
    )
}

/// The columns share the width behind the media equally, each begins at the
/// cell that is nearest.
pub open spec fn columns_equal(area: Area, r: ScreenAreas) -> bool {
    let begin = columns_begin(area, r);
    let n = r.columns@.len() as int;
    forall|i: int|
        0 <= i < n ==> (#[trigger] r.columns@[i]).partial.x == begin + nearest(
            (edge_of(Along::Horizontal, area) - begin) * i,
            n,
        )
}

/// The main screen is divided: a title of 3 rows, a log of 6 rows, and between them
/// at least 8 rows for media, if there is any, and a column for each recogniser.
pub open spec fn is_screen(area: Area, has_media: bool, slots: nat, r: ScreenAreas) -> bool {
    &&& spans_area(Along::Vertical, area, r.top) && is_inside(area, r.top)
    &&& spans_area(Along::Vertical, area, r.log) && is_inside(area, r.log)
    &&& r.top.y == area.y
    &&& end_of(Along::Vertical, r.log) == edge_of(Along::Vertical, area)
    &&& lengths_kept(
        extent_of(Along::Vertical, area),
        3,
        r.top.height as int,
        6,
        r.log.height as int,
        8,
        body_rows(r),
    )
    &&& match r.media {
        Some(m) => {
            &&& has_media
            &&& is_inside(area, m) && is_body(r, m)
            &&& m.x == area.x
            &&& m.width == nearest(extent_of(Along::Horizontal, area) * 34, 100)
        },
        None => !has_media,
    }
    &&& r.columns@.len() == slots
    &&& forall|i: int| 0 <= i < slots ==> column_ok(area, r, #[trigger] r.columns@[i])
    &&& slots < 200 ==> columns_tile(area, r)
    &&& slots <= 100 ==> columns_equal(area, r)
}

/// Divides the main screen: a title of 3 rows at the top and a log of 6 rows at
/// the bottom across the screen, between them media on 34 hundredths of the
/// width if there is any, and a column of two parts for each of `slots`
/// recognisers.
pub fn screen_areas(area: Area, has_media: bool, slots: usize) -> (r: ScreenAreas)
    requires
        slots <= u32::MAX,
    ensures
        is_screen(area, has_media, slots as nat, r),
{
    let rows = split_rows(area, main_rows().as_slice());
    proof {
        lemma_min_in_the_middle(area, 3, 8, 6, rows);
    }
    let mut halves: Option<(Area, Area)> = None;
    let mut body: Area = rows.middle;
    if has_media {
        let (left, right) = split_two(
            Along::Horizontal,
            rows.middle,
            media_columns().as_slice(),
        );
        proof {
            let parts = seq![left, right];
            assert(parts[0] == left && parts[1] == right);
        }
        halves = Some((left, right));
        body = right;
    }
    let column_shares = slot_columns(slots);
    let column_rows = slot_rows();
    proof {
        assert(0 < slots < 200 ==> are_equal(column_shares@));
    }
    let places = split_area(Along::Horizontal, body, column_shares.as_slice());
    let mut columns: Vec<(Area, Area)> = Vec::new();
    let mut i: usize = 0;
    while i < slots
        invariant
            i <= slots <= places@.len(),
            column_rows@ == seq![Share::Length(5), Share::Min(5)],
            body.y + body.height <= u16::MAX,
            forall|j: int|
                0 <= j < places@.len() ==> is_inside(area, #[trigger] places@[j])
                    && places@[j].y == body.y && places@[j].height == body.height,
            columns@.len() == i,
            forall|j: int|
                0 <= j < i ==> {
                    let (partial, finals) = #[trigger] columns@[j];
                    &&& pair_fills(places@[j], partial, finals)
                    &&& lengths_kept(
                        body.height as int,
                        5,
                        partial.height as int,
                        0,
                        0,
                        5,
                        finals.height as int,
                    )
                },
        decreases slots - i,
    {
        let pair = split_two(Along::Vertical, places[i], column_rows.as_slice());
        proof {
            lemma_length_then_min(places@[i as int], 5, 5, pair);
        }
        columns.push(pair);
        i = i + 1;
    }
    screen_of(rows, halves, columns)
}

// ─── The other screens ─────────────────────────────────────────────────

/// The areas of the screen on which models are chosen.
#[derive(Clone, Copy, Debug, PartialEq, Eq, Structural)]
pub struct SelectionAreas {
    pub title: Area,
    pub list: Area,
    pub panel: Area,
    pub foot: Area,
}

/// The screen on which models are chosen is divided: title, list, panel, foot.
pub open spec fn is_selection_screen(area: Area, panel: u16, r: SelectionAreas) -> bool {
    &&& spans_area(Along::Vertical, area, r.title) && is_inside(area, r.title)
    &&& spans_area(Along::Vertical, area, r.foot) && is_inside(area, r.foot)
    &&& spans_area(Along::Vertical, area, r.list) && is_inside(area, r.list)
    &&& spans_area(Along::Vertical, area, r.panel) && is_inside(area, r.panel)
    &&& r.title.y == area.y
    &&& r.list.y == r.title.y + r.title.height
    &&& r.panel.y == r.list.y + r.list.height
    &&& r.foot.y == r.panel.y + r.panel.height
    &&& end_of(Along::Vertical, r.foot) == edge_of(Along::Vertical, area)
    &&& 6 + panel <= i16::MAX ==> lengths_kept(
        extent_of(Along::Vertical, area),
        3,
        r.title.height as int,
        3,
        r.foot.height as int,
        (6 + panel) as nat,
        r.list.height + r.panel.height,
    )
    &&& lengths_kept(
        r.list.height + r.panel.height,
        panel as nat,
        r.panel.height as int,
        0,
        0,
        6,
        r.list.height as int,
    )
}

/// Divides the screen on which models are chosen: a title and a foot of 3 rows,
/// between them the list of at least 6 rows and a panel of `panel` rows.
pub fn selection_areas(area: Area, panel: u16) -> (r: SelectionAreas)
    requires
        6 + panel <= u16::MAX,
    ensures
        is_selection_screen(area, panel, r),
{
    let rows = split_rows(area, framed_rows(6 + panel).as_slice());
    let (list, config) = split_two(Along::Vertical, rows.middle, selection_rows(panel).as_slice());
    proof {
        lemma_min_in_the_middle(area, 3, (6 + panel) as u16, 3, rows);
        lemma_min_then_length(rows.middle, 6, panel, (list, config));
    }
    SelectionAreas { title: rows.top, list, panel: config, foot: rows.bottom }
}

/// The areas of the screen on which a source is chosen.
#[derive(Clone, Copy, Debug, PartialEq, Eq, Structural)]
pub struct DeviceAreas {
    pub title: Area,
    pub inputs: Area,
    pub outputs: Area,
    pub samples: Area,
    pub foot: Area,
}

/// The screen on which a source is chosen is divided: title, microphones, outputs,
/// files, foot.
pub open spec fn is_device_screen(
    area: Area,
    inputs: u16,
    outputs: u16,
    samples: u16,
    r: DeviceAreas,
) -> bool {
    &&& spans_area(Along::Vertical, area, r.title) && is_inside(area, r.title)
    &&& spans_area(Along::Vertical, area, r.foot) && is_inside(area, r.foot)
    &&& spans_area(Along::Vertical, area, r.inputs) && is_inside(area, r.inputs)
    &&& spans_area(Along::Vertical, area, r.outputs) && is_inside(area, r.outputs)
    &&& spans_area(Along::Vertical, area, r.samples) && is_inside(area, r.samples)
    &&& r.title.y == area.y
    &&& r.inputs.y == r.title.y + r.title.height
    &&& r.outputs.y == r.inputs.y + r.inputs.height
    &&& r.samples.y == r.outputs.y + r.outputs.height
    &&& r.foot.y == r.samples.y + r.samples.height
    &&& end_of(Along::Vertical, r.foot) == edge_of(Along::Vertical, area)
    &&& lengths_kept(
        extent_of(Along::Vertical, area),
        3,
        r.title.height as int,
        3,
        r.foot.height as int,
        8,
        r.inputs.height + r.outputs.height + r.samples.height,
    )
    &&& samples <= i16::MAX ==> lengths_kept(
        r.inputs.height + r.outputs.height + r.samples.height,
        inputs as nat,
        r.inputs.height as int,
        outputs as nat,
        r.outputs.height as int,
        samples as nat,
        r.samples.height as int,
    )
}

/// Divides the screen on which a source is chosen: a title and a foot of 3 rows,
/// between them `inputs` rows of microphones, `outputs` rows of outputs and at
/// least `samples` rows of files, on at least 8 rows together.
pub fn device_areas(area: Area, inputs: u16, outputs: u16, samples: u16) -> (r: DeviceAreas)
    ensures
        is_device_screen(area, inputs, outputs, samples, r),
{
    let rows = split_rows(area, framed_rows(8).as_slice());
    let body = split_rows(rows.middle, device_rows(inputs, outputs, samples).as_slice());
    proof {
        lemma_min_in_the_middle(area, 3, 8, 3, rows);
        lemma_min_at_the_end(rows.middle, inputs, outputs, samples, body);
    }
    DeviceAreas {
        title: rows.top,
        inputs: body.top,
        outputs: body.middle,
        samples: body.bottom,
        foot: rows.bottom,
    }
}

/// The areas of the screen on which a source is tried out.
#[derive(Clone, Copy, Debug, PartialEq, Eq, Structural)]
pub struct PreviewAreas {
    pub info: Area,
    pub level: Area,
    pub hint: Area,
}

/// The screen on which a source is tried out is divided: text, level, what keys do.
pub open spec fn is_preview_screen(area: Area, r: PreviewAreas) -> bool {
    &&& rows_fill(area, r.info, r.level, r.hint)
    &&& lengths_kept(
        extent_of(Along::Vertical, area),
        7,
        r.info.height as int,
        3,
        r.level.height as int,
        1,
        r.hint.height as int,
    )
}

/// Divides the screen on which a source is tried out: 7 rows of text, 3 rows for
/// the level, and what keys do on the rest.
pub fn preview_areas(area: Area) -> (r: PreviewAreas)
    ensures
        is_preview_screen(area, r),
{
    let rows = split_rows(area, preview_rows().as_slice());
    proof {
        lemma_min_at_the_end(area, 7, 3, 1, rows);
    }
    PreviewAreas { info: rows.top, level: rows.middle, hint: rows.bottom }
}

// ─── Laws ──────────────────────────────────────────────────────────────

proof fn lemma_nearest_steps(extent: int, n: int, i: int)
    requires
        n > 0,
    ensures
        extent / n <= nearest(extent * (i + 1), n) - nearest(extent * i, n) <= extent / n + 1,
{
    let (q, rest) = (extent / n, extent % n);
    let a = 2 * (extent * i) + n;
    let b = 2 * (extent * (i + 1)) + n;
    vstd::arithmetic::div_mod::lemma_fundamental_div_mod(extent, n);
    assert(extent * (i + 1) == extent * i + extent) by (nonlinear_arith);
    assert(b == a + 2 * rest + (2 * n) * q) by (nonlinear_arith)
        requires
            b == a + 2 * extent,
            extent == n * q + rest,
    ;
    vstd::arithmetic::div_mod::lemma_hoist_over_denominator(a + 2 * rest, q, (2 * n) as nat);
    vstd::arithmetic::div_mod::lemma_hoist_over_denominator(a, 1, (2 * n) as nat);
    assert(0 <= 2 * rest <= 2 * n);
    vstd::arithmetic::div_mod::lemma_div_is_ordered(a, a + 2 * rest, 2 * n);
    vstd::arithmetic::div_mod::lemma_div_is_ordered(a + 2 * rest, a + 2 * n, 2 * n);
    assert(q * (2 * n) == (2 * n) * q) by (nonlinear_arith);
}

/// Every recogniser has room: its column is as wide as any other, give or take
/// a cell.
pub proof fn law_columns_are_equally_wide(area: Area, r: ScreenAreas, i: int)
    requires
        columns_tile(area, r),
        columns_equal(area, r),
        0 <= i < r.columns@.len(),
    ensures
        ({
            let width = edge_of(Along::Horizontal, area) - columns_begin(area, r);
            let share = width / r.columns@.len() as int;
            share <= r.columns@[i].partial.width <= share + 1
        }),
{
    let n = r.columns@.len() as int;
    let width = edge_of(Along::Horizontal, area) - columns_begin(area, r);
    lemma_nearest_steps(width, n, i);
    if i + 1 < n {
        assert(r.columns@[i + 1].partial.x == r.columns@[i].partial.x
            + r.columns@[i].partial.width);
    } else {
        assert(nearest(width * n, n) == width) by (nonlinear_arith)
            requires
                n > 0,
                nearest(width * n, n) == (2 * (width * n) + n) / (2 * n),
        ;
    }
}

/// On a screen of at least 17 rows the title has the first 3 rows and the log the
/// last 6, both across the screen; between them stands media, on 34 hundredths of the
/// width, exactly if there is any, and a column for each recogniser, with 5 rows for
/// what is being said if there are 10.
pub proof fn law_main_screen_has_its_rows(
    area: Area,
    has_media: bool,
    slots: nat,
    r: ScreenAreas,
    i: int,
)
    requires
        is_screen(area, has_media, slots, r),
        area.x + area.width <= u16::MAX && area.y + area.height <= u16::MAX,
        area.height >= 17,
    ensures
        r.top == (Area { x: area.x, y: area.y, width: area.width, height: 3 }),
        r.log.x == area.x && r.log.width == area.width && r.log.height == 6,
        r.log.y + 6 == area.y + area.height,
        r.media is Some <==> has_media,
        has_media ==> ({
            let m = r.media->0;
            &&& m.x == area.x && m.y == area.y + 3 && m.height == area.height - 9
            &&& 34 * area.width - 50 <= 100 * m.width <= 34 * area.width + 50
        }),
        r.columns@.len() == slots,
        0 <= i < slots ==> ({
            let c = r.columns@[i];
            &&& c.partial.y == area.y + 3
            &&& c.finals.y == c.partial.y + c.partial.height
            &&& c.partial.height + c.finals.height == area.height - 9
            &&& area.height >= 19 ==> c.partial.height == 5
            &&& c.partial.x == c.finals.x && c.partial.width == c.finals.width
        }),
{
    if 0 <= i < slots {
        assert(column_ok(area, r, r.columns@[i]));
    }
    law_rounding_is_to_the_nearest(area.width * 34, 100);
    assert(extent_of(Along::Horizontal, area) == area.width);
}

/// The first column begins at the left or beside the media, the last reaches to the
/// right, and each begins where the one before ends.
pub proof fn law_columns_stand_side_by_side(
    area: Area,
    has_media: bool,
    slots: nat,
    r: ScreenAreas,
    i: int,
)
    requires
        is_screen(area, has_media, slots, r),
        area.x + area.width <= u16::MAX,
        0 <= i < slots < 200,
    ensures
        !has_media ==> r.columns@[0].partial.x == area.x,
        has_media ==> r.columns@[0].partial.x == r.media->0.x + r.media->0.width,
        i + 1 < slots ==> r.columns@[i + 1].partial.x == r.columns@[i].partial.x
            + r.columns@[i].partial.width,
        i + 1 == slots ==> r.columns@[i].partial.x + r.columns@[i].partial.width == area.x
            + area.width,
{
    if i + 1 < slots {
        let (a, b) = (r.columns@[i], r.columns@[i + 1]);
        assert(b.partial.x == a.partial.x + a.partial.width);
    }
}

/// Where all fits, the title and the foot have 3 rows each, the panel has what it asks
/// for, and the list takes the rest.
pub proof fn law_list_takes_what_is_left(area: Area, panel: u16, r: SelectionAreas)
    requires
        is_selection_screen(area, panel, r),
        area.y + area.height <= u16::MAX,
        12 + panel <= area.height,
        6 + panel <= i16::MAX,
    ensures
        r.title == (Area { x: area.x, y: area.y, width: area.width, height: 3 }),
        r.list.y == area.y + 3 && r.list.height == area.height - 6 - panel,
        r.panel.y + panel + 3 == area.y + area.height && r.panel.height == panel,
        r.foot.y + 3 == area.y + area.height && r.foot.height == 3,
        r.list.width == area.width && r.panel.width == area.width && r.foot.width == area.width,
{
}

/// Where all fits, the title and the foot have 3 rows each, the microphones and the
/// outputs have what they ask for, and the files take the rest.
pub proof fn law_files_take_what_is_left(
    area: Area,
    inputs: u16,
    outputs: u16,
    samples: u16,
    r: DeviceAreas,
)
    requires
        is_device_screen(area, inputs, outputs, samples, r),
        area.y + area.height <= u16::MAX,
        14 <= area.height && 6 + inputs + outputs + samples <= area.height,
        samples <= i16::MAX,
    ensures
        r.title == (Area { x: area.x, y: area.y, width: area.width, height: 3 }),
        r.inputs.y == area.y + 3 && r.inputs.height == inputs,
        r.outputs.y == area.y + 3 + inputs && r.outputs.height == outputs,
        r.samples.y == area.y + 3 + inputs + outputs,
        r.samples.height == area.height - 6 - inputs - outputs,
        r.foot.y + 3 == area.y + area.height && r.foot.height == 3,
{
}

/// Of 11 rows or more, 7 are for the text, 3 for the level, and the others for what
/// keys do, which is the last to go on a smaller screen.
pub proof fn law_level_stands_below_the_text(area: Area, r: PreviewAreas)
    requires
        is_preview_screen(area, r),
        area.y + area.height <= u16::MAX,
    ensures
        area.height >= 11 ==> r.info == (Area {
            x: area.x,
            y: area.y,
            width: area.width,
            height: 7,
        }),
        area.height >= 11 ==> r.level.y == area.y + 7 && r.level.height == 3,
        area.height >= 11 ==> r.hint.y == area.y + 10 && r.hint.height == area.height - 10,
        1 <= area.height <= 11 ==> r.hint.height == 1,
        r.info.height + r.level.height + r.hint.height == area.height,
{
}

/// What is rounded lies within half a cell of what was meant.
pub proof fn law_rounding_is_to_the_nearest(a: int, b: int)
    requires
        b > 0,
    ensures
        2 * a - b <= 2 * (nearest(a, b) * b) <= 2 * a + b,
{
    vstd::arithmetic::div_mod::lemma_fundamental_div_mod(2 * a + b, 2 * b);
    let q = (2 * a + b) / (2 * b);
    assert((2 * b) * q == 2 * (q * b)) by (nonlinear_arith);
}

} // verus!
