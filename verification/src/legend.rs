//! The legend of a map: how its items are cut to the width of the picture, put into rows and drawn.

use vstd::prelude::*;

use crate::text;

verus! {

/// The dark colour of marks and words, as red, green, blue and opacity.
pub const RING: u32 = 0x1E293BFF;

/// The sign before an item of the legend.
#[derive(Clone, Copy, PartialEq, Eq, Structural, Debug)]
pub enum Mark {
    /// No sign.
    Plain,
    /// A thick line of a colour.
    Swatch(u32),
    /// A ring with a point in it.
    Marker,
    /// A round point.
    Dot,
    /// A block.
    Square,
    /// A cross.
    Cross,
    /// A thin broken line of a colour.
    Thin(u32),
}

/// An item of the legend.
pub struct LegendItem {
    pub mark: Mark,
    pub text: String,
}

#[verifier::ext_equal]
pub struct ItemModel {
    pub mark: Mark,
    pub text: Seq<char>,
}

impl View for LegendItem {
    type V = ItemModel;

    open spec fn view(&self) -> ItemModel {
        ItemModel { mark: self.mark, text: self.text@ }
    }
}

pub open spec fn item_models(items: Seq<LegendItem>) -> Seq<ItemModel> {
    items.map_values(|i: LegendItem| i@)
}

pub proof fn lemma_item_models_push(items: Seq<LegendItem>, i: LegendItem)
    ensures
        item_models(items.push(i)) == item_models(items).push(i@),
{
    assert(item_models(items.push(i)) =~= item_models(items).push(i@));
}

/// Adds an item to a legend.
pub fn add_item(items: &mut Vec<LegendItem>, mark: Mark, text: &str)
    ensures
        item_models(final(items)@) == item_models(old(items)@).push(ItemModel { mark, text: text@ }),
{
    let item = LegendItem { mark, text: text::copy_text(text) };
    proof {
        lemma_item_models_push(items@, item);
    }
    items.push(item);
}

/// Width and height of a text in pixels, in a font of a size; none where the bytes are no font.
pub uninterp spec fn text_pixels(font: Seq<u8>, px: u8, s: Seq<char>) -> Option<(u32, u32)>;

/// `imageproc::drawing::text_size` on the font that `ab_glyph::FontRef::try_from_slice` reads from
/// the bytes: what comes out depends on the bytes, the size and the text alone.
#[verifier::external_body]
fn text_box(font: &Vec<u8>, px: u8, s: &str) -> (r: Option<(u32, u32)>)
    ensures
        r == text_pixels(font@, px, s@),
{
    let scale = ab_glyph::PxScale { x: px.into(), y: px.into() };
    match ab_glyph::FontRef::try_from_slice(font.as_slice()) {
        Ok(f) => Some(imageproc::drawing::text_size(scale, &f, s)),
        Err(_) => None,
    }
}

/// The size of the legend's words.
pub const LEGEND_PX: u8 = 18;

/// Between the legend and the edge of the picture.
pub const MARGIN: i128 = 12;

/// Between the legend's frame and what is in it.
pub const PAD: i128 = 8;

pub const ROW_HEIGHT: i128 = 28;

/// Between two items in a row.
pub const GAP: i128 = 18;

/// The room that a sign takes.
pub const SIGN_WIDTH: i128 = 28;

/// Whether bytes are a font.
pub open spec fn is_font(font: Seq<u8>) -> bool {
    text_pixels(font, LEGEND_PX, Seq::empty()) is Some
}

/// The font, where there is one.
pub fn usable_font(font: Option<Vec<u8>>) -> (r: Option<Vec<u8>>)
    ensures
        r == (match font {
            Some(f) => if is_font(f@) {
                Some(f)
            } else {
                None
            },
            None => None,
        }),
{
    match font {
        Some(f) => {
            let s = String::new();
            let size = text_box(&f, LEGEND_PX, s.as_str());
            assert(s@ =~= Seq::<char>::empty());
            match size {
                Some(_) => Some(f),
                None => None,
            }
        },
        None => None,
    }
}

/// The width of a text of the legend.
pub open spec fn text_width(font: Seq<u8>, s: Seq<char>) -> int {
    match text_pixels(font, LEGEND_PX, s) {
        Some(p) => p.0 as int,
        None => 0,
    }
}

/// The height of a text of the legend.
pub open spec fn text_height(font: Seq<u8>, s: Seq<char>) -> int {
    match text_pixels(font, LEGEND_PX, s) {
        Some(p) => p.1 as int,
        None => 0,
    }
}

/// Width and height of a text of the legend.
pub fn measure(font: &Vec<u8>, s: &str) -> (r: (i128, i128))
    ensures
        r.0 == text_width(font@, s@),
        r.1 == text_height(font@, s@),
        0 <= r.0 <= u32::MAX,
        0 <= r.1 <= u32::MAX,
{
    match text_box(font, LEGEND_PX, s) {
        Some(p) => (p.0 as i128, p.1 as i128),
        None => (0, 0),
    }
}

/// Width and height of a text in a font of a size; none where the bytes are no font.
pub fn measure_at(font: &Vec<u8>, px: u8, s: &str) -> (r: Option<(u32, u32)>)
    ensures
        r == text_pixels(font@, px, s@),
{
    text_box(font, px, s)
}

/// The width that the items have in a picture.
pub open spec fn room(img_w: int) -> int {
    img_w - 2 * MARGIN - 2 * PAD
}

pub open spec fn sign_width(mark: Mark) -> int {
    if mark == Mark::Plain {
        0
    } else {
        SIGN_WIDTH as int
    }
}

/// A piece of an item that stands in one row.
pub struct LegendUnit {
    pub mark: Mark,
    pub text: String,
    pub width: i128,
    /// Whether it begins a row.
    pub break_before: bool,
}

#[verifier::ext_equal]
pub struct UnitModel {
    pub mark: Mark,
    pub text: Seq<char>,
    pub width: int,
    pub break_before: bool,
}

impl View for LegendUnit {
    type V = UnitModel;

    open spec fn view(&self) -> UnitModel {
        UnitModel {
            mark: self.mark,
            text: self.text@,
            width: self.width as int,
            break_before: self.break_before,
        }
    }
}

pub open spec fn unit_models(units: Seq<LegendUnit>) -> Seq<UnitModel> {
    units.map_values(|u: LegendUnit| u@)
}

proof fn lemma_unit_models_push(units: Seq<LegendUnit>, u: LegendUnit)
    ensures
        unit_models(units.push(u)) == unit_models(units).push(u@),
{
    assert(unit_models(units.push(u)) =~= unit_models(units).push(u@));
}

/// Where a piece that begins at `from` and reaches to `to` ends: it takes characters as long as
/// they fit, and one in any case.
pub open spec fn piece_end(
    font: Seq<u8>,
    s: Seq<char>,
    from: int,
    to: int,
    most: int,
) -> int
    decreases s.len() - to,
{
    if to >= s.len() {
        to
    } else if to > from && text_width(font, s.subrange(from, to + 1)) > most {
        to
    } else {
        piece_end(font, s, from, to + 1, most)
    }
}

/// The width that a piece may have: the first one leaves room for the sign on both sides, the
/// others leave it on one.
pub open spec fn piece_room(mark: Mark, from: int, max_w: int) -> int {
    if from == 0 {
        max_w - 2 * sign_width(mark)
    } else {
        max_w - sign_width(mark)
    }
}

pub open spec fn piece(font: Seq<u8>, mark: Mark, s: Seq<char>, from: int, to: int) -> UnitModel {
    let chunk = s.subrange(from, to);
    if from == 0 {
        UnitModel {
            mark,
            text: chunk,
            width: sign_width(mark) + text_width(font, chunk),
            break_before: false,
        }
    } else {
        UnitModel {
            mark: Mark::Plain,
            text: chunk,
            width: text_width(font, chunk),
            break_before: true,
        }
    }
}

/// A piece takes at least one character, and ends within its text.
pub proof fn lemma_piece_end(font: Seq<u8>, s: Seq<char>, from: int, to: int, most: int)
    requires
        0 <= from <= to <= s.len(),
        from < s.len(),
    ensures
        to <= piece_end(font, s, from, to, most) <= s.len(),
        from < piece_end(font, s, from, to, most),
    decreases s.len() - to,
{
    if to < s.len() {
        lemma_piece_end(font, s, from, to + 1, most);
    }
}

/// The pieces of a text that is too wide for a row, from a place on.
pub open spec fn pieces(font: Seq<u8>, mark: Mark, s: Seq<char>, from: int, max_w: int) -> Seq<
    UnitModel,
>
    decreases s.len() - from,
{
    if from < 0 || from >= s.len() {
        Seq::empty()
    } else {
        let to = piece_end(font, s, from, from, piece_room(mark, from, max_w));
        proof {
            lemma_piece_end(font, s, from, from, piece_room(mark, from, max_w));
        }
        seq![piece(font, mark, s, from, to)] + pieces(font, mark, s, to, max_w)
    }
}

/// Whether an item stands in one piece: it fits, or there is no room even for its sign.
pub open spec fn is_whole(font: Seq<u8>, item: ItemModel, max_w: int) -> bool {
    sign_width(item.mark) + text_width(font, item.text) <= max_w || max_w <= sign_width(item.mark)
}

/// The pieces of an item.
pub open spec fn item_units(font: Seq<u8>, item: ItemModel, max_w: int) -> Seq<UnitModel> {
    if is_whole(font, item, max_w) {
        seq![
            UnitModel {
                mark: item.mark,
                text: item.text,
                width: sign_width(item.mark) + text_width(font, item.text),
                break_before: false,
            },
        ]
    } else {
        pieces(font, item.mark, item.text, 0, max_w)
    }
}

/// The pieces of the items.
pub open spec fn units_of(font: Seq<u8>, items: Seq<ItemModel>, max_w: int) -> Seq<UnitModel>
    decreases items.len(),
{
    if items.len() == 0 {
        Seq::empty()
    } else {
        units_of(font, items.drop_last(), max_w) + item_units(font, items.last(), max_w)
    }
}

/// Cuts a text that is too wide for a row.
fn cut(font: &Vec<u8>, item: &LegendItem, max_w: i128, units: &mut Vec<LegendUnit>)
    requires
        -0x1_0000_0000 <= max_w <= 0x1_0000_0000,
        forall|i: int| 0 <= i < old(units)@.len() ==> 0 <= (#[trigger] old(units)@[i]).width <= 0x2_0000_0000,
    ensures
        unit_models(final(units)@) == unit_models(old(units)@) + pieces(
            font@,
            item.mark,
            item.text@,
            0,
            max_w as int,
        ),
        forall|i: int| 0 <= i < final(units)@.len() ==> 0 <= (#[trigger] final(units)@[i]).width <= 0x2_0000_0000,
{
    let chars = text::chars_of(item.text.as_str());
    let sign: i128 = if item.mark == Mark::Plain {
        0
    } else {
        SIGN_WIDTH
    };
    let ghost base = unit_models(units@);
    let ghost all = pieces(font@, item.mark, item.text@, 0, max_w as int);
    let mut from: usize = 0;
    assert(base + all =~= unit_models(units@) + all);
    while from < chars.len()
        invariant
            chars@ == item.text@,
            from <= chars@.len(),
            sign == sign_width(item.mark),
            0 <= sign <= 28,
            -0x1_0000_0000 <= max_w <= 0x1_0000_0000,
            base + all == unit_models(units@) + pieces(
                font@,
                item.mark,
                item.text@,
                from as int,
                max_w as int,
            ),
            forall|i: int| 0 <= i < units@.len() ==> 0 <= (#[trigger] units@[i]).width <= 0x2_0000_0000,
        decreases chars@.len() - from,
    {
        let most = if from == 0 {
            max_w - 2 * sign
        } else {
            max_w - sign
        };
        let mut to: usize = from;
        let mut more = true;
        while more && to < chars.len()
            invariant
                chars@ == item.text@,
                from <= to <= chars@.len(),
                from < chars@.len(),
                most == piece_room(item.mark, from as int, max_w as int),
                more ==> piece_end(font@, item.text@, from as int, from as int, most as int)
                    == piece_end(font@, item.text@, from as int, to as int, most as int),
                !more ==> to == piece_end(
                    font@,
                    item.text@,
                    from as int,
                    from as int,
                    most as int,
                ),
            decreases chars@.len() - to, (if more { 1int } else { 0int }),
        {
            let candidate = text::text_between(&chars, from, to + 1);
            if to > from && measure(font, candidate.as_str()).0 > most {
                more = false;
            } else {
                to = to + 1;
            }
        }
        proof {
            lemma_piece_end(font@, item.text@, from as int, from as int, most as int);
        }
        let chunk = text::text_between(&chars, from, to);
        let width = measure(font, chunk.as_str()).0;
        let unit = if from == 0 {
            LegendUnit { mark: item.mark, text: chunk, width: sign + width, break_before: false }
        } else {
            LegendUnit { mark: Mark::Plain, text: chunk, width, break_before: true }
        };
        proof {
            let rest = pieces(font@, item.mark, item.text@, to as int, max_w as int);
            assert(unit@ == piece(font@, item.mark, item.text@, from as int, to as int));
            lemma_unit_models_push(units@, unit);
            assert(unit_models(units@) + (seq![unit@] + rest) =~= unit_models(units@).push(unit@)
                + rest);
        }
        units.push(unit);
        from = to;
    }
    assert(unit_models(units@) + Seq::<UnitModel>::empty() =~= unit_models(units@));
}

/// The pieces of the items, for a picture of a width.
pub fn legend_units(items: &Vec<LegendItem>, font: &Vec<u8>, img_w: i32) -> (r: Vec<LegendUnit>)
    ensures
        unit_models(r@) == units_of(font@, item_models(items@), room(img_w as int)),
        forall|i: int| 0 <= i < r@.len() ==> 0 <= (#[trigger] r@[i]).width <= 0x2_0000_0000,
{
    let max_w: i128 = img_w as i128 - 2 * MARGIN - 2 * PAD;
    let ghost all = item_models(items@);
    let mut units: Vec<LegendUnit> = Vec::new();
    let mut i: usize = 0;
    assert(unit_models(units@) =~= units_of(font@, all.take(0), max_w as int));
    while i < items.len()
        invariant
            i <= items@.len(),
            all == item_models(items@),
            -0x1_0000_0000 <= max_w <= 0x1_0000_0000,
            unit_models(units@) == units_of(font@, all.take(i as int), max_w as int),
            forall|k: int| 0 <= k < units@.len() ==> 0 <= (#[trigger] units@[k]).width <= 0x2_0000_0000,
        decreases items@.len() - i,
    {
        let item = &items[i];
        let sign: i128 = if item.mark == Mark::Plain {
            0
        } else {
            SIGN_WIDTH
        };
        let full = sign + measure(font, item.text.as_str()).0;
        proof {
            assert(all.take(i + 1).drop_last() =~= all.take(i as int));
            assert(all.take(i + 1).last() == item@);
        }
        if full <= max_w || max_w <= sign {
            let unit = LegendUnit {
                mark: item.mark,
                text: text::copy_text(item.text.as_str()),
                width: full,
                break_before: false,
            };
            proof {
                lemma_unit_models_push(units@, unit);
                assert(unit_models(units@).push(unit@) =~= unit_models(units@) + seq![unit@]);
            }
            units.push(unit);
        } else {
            cut(font, item, max_w, &mut units);
        }
        i = i + 1;
    }
    assert(all.take(all.len() as int) =~= all);
    units
}

/// The texts of pieces, one behind the other.
pub open spec fn texts_joined(units: Seq<UnitModel>) -> Seq<char>
    decreases units.len(),
{
    if units.len() == 0 {
        Seq::empty()
    } else {
        units[0].text + texts_joined(units.drop_first())
    }
}

proof fn lemma_pieces(font: Seq<u8>, mark: Mark, s: Seq<char>, from: int, max_w: int)
    requires
        0 <= from <= s.len(),
        sign_width(mark) < max_w,
    ensures
        texts_joined(pieces(font, mark, s, from, max_w)) == s.skip(from),
        forall|i: int|
            0 <= i < pieces(font, mark, s, from, max_w).len() ==> {
                let u = #[trigger] pieces(font, mark, s, from, max_w)[i];
                &&& u.width <= max_w || u.text.len() == 1
                &&& u.break_before == (from > 0 || i > 0)
                &&& from > 0 || i > 0 ==> u.mark == Mark::Plain
                &&& from == 0 && i == 0 ==> u.mark == mark
            },
    decreases s.len() - from,
{
    let all = pieces(font, mark, s, from, max_w);
    if from < s.len() {
        let most = piece_room(mark, from, max_w);
        let to = piece_end(font, s, from, from, most);
        lemma_piece_end(font, s, from, from, most);
        lemma_piece_fits(font, s, from, from, most);
        lemma_pieces(font, mark, s, to, max_w);
        let rest = pieces(font, mark, s, to, max_w);
        assert(all == seq![piece(font, mark, s, from, to)] + rest);
        assert(all.drop_first() =~= rest);
        assert(s.subrange(from, to) + s.skip(to) =~= s.skip(from));
        assert forall|i: int| 0 <= i < all.len() implies {
            let u = #[trigger] all[i];
            &&& u.width <= max_w || u.text.len() == 1
            &&& u.break_before == (from > 0 || i > 0)
            &&& from > 0 || i > 0 ==> u.mark == Mark::Plain
            &&& from == 0 && i == 0 ==> u.mark == mark
        } by {
            if i > 0 {
                assert(all[i] == rest[i - 1]);
            }
        }
    } else {
        assert(s.skip(from) =~= Seq::<char>::empty());
    }
}

proof fn lemma_piece_fits(font: Seq<u8>, s: Seq<char>, from: int, to: int, most: int)
    requires
        0 <= from <= to <= s.len(),
        from < s.len(),
        to > from + 1 ==> text_width(font, s.subrange(from, to)) <= most,
    ensures
        ({
            let e = piece_end(font, s, from, to, most);
            e == from + 1 || text_width(font, s.subrange(from, e)) <= most
        }),
    decreases s.len() - to,
{
    if to < s.len() {
        if !(to > from && text_width(font, s.subrange(from, to + 1)) > most) {
            lemma_piece_fits(font, s, from, to + 1, most);
        }
    }
}

/// No piece is wider than the room, but for a single character or an item for whose sign there is
/// no room; and the pieces of an item hold its text, in order: the first bears its sign, the others
/// begin a row.
pub proof fn law_pieces_fit(font: Seq<u8>, item: ItemModel, max_w: int)
    ensures
        texts_joined(item_units(font, item, max_w)) == item.text,
        forall|i: int|
            0 <= i < item_units(font, item, max_w).len() ==> {
                let u = #[trigger] item_units(font, item, max_w)[i];
                &&& u.width <= max_w || u.text.len() == 1 || max_w <= sign_width(item.mark)
                &&& u.break_before == (i > 0)
                &&& i == 0 ==> u.mark == item.mark
                &&& i > 0 ==> u.mark == Mark::Plain
            },
{
    let units = item_units(font, item, max_w);
    if is_whole(font, item, max_w) {
        assert(units.drop_first() =~= Seq::<UnitModel>::empty());
        assert(texts_joined(units.drop_first()) =~= Seq::<char>::empty());
        assert(item.text + Seq::<char>::empty() =~= item.text);
    } else {
        lemma_pieces(font, item.mark, item.text, 0, max_w);
        assert(item.text.skip(0) =~= item.text);
    }
}

// ---- Rows ----

pub open spec fn row_views(rows: Seq<Vec<usize>>) -> Seq<Seq<usize>> {
    rows.map_values(|r: Vec<usize>| r@)
}

/// The rows so far, and the width of the last.
#[verifier::ext_equal]
pub struct RowsModel {
    pub rows: Seq<Seq<usize>>,
    pub width: int,
}

/// The rows that the first units fill: each goes into the last row, unless it begins a row or there
/// is no room for it.
pub open spec fn rows_of(units: Seq<UnitModel>, max_w: int) -> RowsModel
    decreases units.len(),
{
    if units.len() == 0 {
        RowsModel { rows: seq![Seq::empty()], width: 0 }
    } else {
        let before = rows_of(units.drop_last(), max_w);
        let u = units.last();
        let i = (units.len() - 1) as usize;
        let last = before.rows.last();
        if last.len() > 0 && (u.break_before || before.width + u.width + GAP > max_w) {
            RowsModel { rows: before.rows.push(seq![i]), width: u.width }
        } else {
            RowsModel {
                rows: before.rows.drop_last().push(last.push(i)),
                width: before.width + u.width + (if last.len() == 0 {
                    0
                } else {
                    GAP as int
                }),
            }
        }
    }
}

/// Puts the units into rows.
pub fn legend_rows(units: &Vec<LegendUnit>, max_w: i128) -> (r: Vec<Vec<usize>>)
    requires
        -0x1_0000_0000 <= max_w <= 0x1_0000_0000,
        forall|i: int| 0 <= i < units@.len() ==> 0 <= (#[trigger] units@[i]).width <= 0x2_0000_0000,
    ensures
        row_views(r@) == rows_of(unit_models(units@), max_w as int).rows,
{
    let ghost all = unit_models(units@);
    let mut done: Vec<Vec<usize>> = Vec::new();
    let mut row: Vec<usize> = Vec::new();
    let mut width: i128 = 0;
    let mut i: usize = 0;
    assert(row_views(done@).push(row@) =~= seq![Seq::<usize>::empty()]);
    while i < units.len()
        invariant
            i <= units@.len(),
            all == unit_models(units@),
            -0x1_0000_0000 <= max_w <= 0x1_0000_0000,
            forall|k: int| 0 <= k < units@.len() ==> 0 <= (#[trigger] units@[k]).width <= 0x2_0000_0000,
            row_views(done@).push(row@) == rows_of(all.take(i as int), max_w as int).rows,
            width == rows_of(all.take(i as int), max_w as int).width,
            0 <= width <= 0x4_0000_0000,
            row@.len() == 0 ==> width == 0,
        decreases units@.len() - i,
    {
        let u = &units[i];
        proof {
            assert(all.take(i + 1).drop_last() =~= all.take(i as int));
            assert(all.take(i + 1).last() == u@);
            assert(row_views(done@).push(row@).last() == row@);
            assert(row_views(done@).push(row@).drop_last() =~= row_views(done@));
        }
        if row.len() > 0 && (u.break_before || width + u.width + GAP > max_w) {
            let ghost before = done@;
            let ghost old_row = row;
            done.push(row);
            assert(row_views(done@) =~= row_views(before).push(old_row@));
            row = Vec::new();
            row.push(i);
            assert(row@ =~= seq![i]);
            width = u.width;
        } else {
            if row.len() == 0 {
                width = width + u.width;
            } else {
                width = width + u.width + GAP;
            }
            row.push(i);
        }
        i = i + 1;
    }
    assert(all.take(all.len() as int) =~= all);
    let ghost before = done@;
    let ghost last = row;
    done.push(row);
    assert(row_views(done@) =~= row_views(before).push(last@));
    done
}

/// The units of all rows, one behind the other.
pub open spec fn flat(rows: Seq<Seq<usize>>) -> Seq<usize>
    decreases rows.len(),
{
    if rows.len() == 0 {
        Seq::empty()
    } else {
        flat(rows.drop_last()) + rows.last()
    }
}

/// The width that a row takes.
pub open spec fn row_width(units: Seq<UnitModel>, row: Seq<usize>) -> int
    decreases row.len(),
{
    if row.len() == 0 {
        0
    } else if row.len() == 1 {
        units[row[0] as int].width
    } else {
        row_width(units, row.drop_last()) + GAP + units[row.last() as int].width
    }
}

/// What holds of the rows that the first `n` units fill.
spec fn rows_hold(units: Seq<UnitModel>, n: int, max_w: int) -> bool {
    let m = rows_of(units.take(n), max_w);
    &&& m.rows.len() > 0
    &&& flat(m.rows) == Seq::new(n as nat, |i: int| i as usize)
    &&& m.width == row_width(units, m.rows.last())
    &&& forall|r: int| 0 <= r < m.rows.len() ==> row_fits(units, #[trigger] m.rows[r], max_w)
}

/// Whether a row is as it should be: it holds units, at most one of them begins a row, the first,
/// and there is room for them, unless it is one alone.
pub open spec fn row_fits(units: Seq<UnitModel>, row: Seq<usize>, max_w: int) -> bool {
    &&& forall|k: int| 0 <= k < row.len() ==> (#[trigger] row[k]) < units.len()
    &&& forall|k: int| 0 < k < row.len() ==> !units[(#[trigger] row[k]) as int].break_before
    &&& row.len() > 1 ==> row_width(units, row) <= max_w
}

proof fn lemma_rows_hold(units: Seq<UnitModel>, n: int, max_w: int)
    requires
        0 <= n <= units.len() <= usize::MAX,
    ensures
        rows_hold(units, n, max_w),
    decreases n,
{
    let m = rows_of(units.take(n), max_w);
    if n == 0 {
        assert(units.take(0).len() == 0);
        assert(m.rows =~= seq![Seq::<usize>::empty()]);
        assert(m.rows.drop_last() =~= Seq::<Seq<usize>>::empty());
        assert(flat(m.rows) =~= Seq::new(0nat, |i: int| i as usize)) by {
            assert(flat(m.rows.drop_last()) =~= Seq::<usize>::empty());
        }
    } else {
        lemma_rows_hold(units, n - 1, max_w);
        let before = rows_of(units.take(n - 1), max_w);
        let u = units[n - 1];
        let i = (n - 1) as usize;
        assert(units.take(n).drop_last() =~= units.take(n - 1));
        assert(units.take(n).last() == u);
        let last = before.rows.last();
        assert(row_fits(units, before.rows[before.rows.len() - 1], max_w));
        if last.len() > 0 && (u.break_before || before.width + u.width + GAP > max_w) {
            assert(m.rows.drop_last() =~= before.rows);
            assert(flat(m.rows) =~= Seq::new(n as nat, |i: int| i as usize));
            assert forall|r: int| 0 <= r < m.rows.len() implies row_fits(
                units,
                #[trigger] m.rows[r],
                max_w,
            ) by {
                if r < before.rows.len() {
                    assert(m.rows[r] == before.rows[r]);
                }
            }
        } else {
            let row = last.push(i);
            assert(m.rows.last() == row);
            assert(m.rows.drop_last() =~= before.rows.drop_last());
            assert(flat(m.rows) =~= Seq::new(n as nat, |i: int| i as usize)) by {
                assert(flat(m.rows) == flat(before.rows.drop_last()) + row);
                assert(flat(before.rows) == flat(before.rows.drop_last()) + last);
                assert(flat(m.rows) =~= flat(before.rows).push(i));
                assert(Seq::new((n - 1) as nat, |i: int| i as usize).push(i) =~= Seq::new(
                    n as nat,
                    |i: int| i as usize,
                ));
            }
            assert(row.drop_last() =~= last);
            assert(m.width == row_width(units, row));
            assert(row_fits(units, row, max_w)) by {
                assert forall|k: int| 0 <= k < row.len() implies (#[trigger] row[k])
                    < units.len() by {
                    if k < last.len() {
                        assert(row[k] == last[k]);
                    }
                }
                assert forall|k: int| 0 < k < row.len() implies !units[(#[trigger] row[k])
                    as int].break_before by {
                    if k < last.len() {
                        assert(row[k] == last[k]);
                    }
                }
            }
            assert forall|r: int| 0 <= r < m.rows.len() implies row_fits(
                units,
                #[trigger] m.rows[r],
                max_w,
            ) by {
                if r < before.rows.len() - 1 {
                    assert(m.rows[r] == before.rows[r]);
                } else {
                    assert(m.rows[r] == row);
                }
            }
        }
    }
}

/// Every unit stands in one row, in order; a unit that begins a row is the first of its row; and a
/// row of more than one unit fits the room.
pub proof fn law_rows_fit(units: Seq<UnitModel>, max_w: int)
    requires
        units.len() <= usize::MAX,
    ensures
        flat(rows_of(units, max_w).rows) == Seq::new(units.len(), |i: int| i as usize),
        forall|r: int|
            0 <= r < rows_of(units, max_w).rows.len() ==> row_fits(
                units,
                #[trigger] rows_of(units, max_w).rows[r],
                max_w,
            ),
{
    lemma_rows_hold(units, units.len() as int, max_w);
    assert(units.take(units.len() as int) =~= units);
}

/// The height of the legend's frame; 0 where there is no item beside the title.
pub open spec fn box_height(font: Seq<u8>, items: Seq<ItemModel>, img_w: int) -> int {
    if items.len() <= 1 {
        0
    } else {
        PAD * 2 + rows_of(units_of(font, items, room(img_w)), room(img_w)).rows.len() * ROW_HEIGHT
    }
}

pub fn flow_legend_box_h(items: &Vec<LegendItem>, font: &Vec<u8>, img_w: i32) -> (h: i128)
    ensures
        h == box_height(font@, item_models(items@), img_w as int),
        0 <= h <= 16 + 28 * usize::MAX,
{
    if items.len() <= 1 {
        return 0;
    }
    let units = legend_units(items, font, img_w);
    let rows = legend_rows(&units, img_w as i128 - 2 * MARGIN - 2 * PAD);
    let n: usize = rows.len();
    assert(n == row_views(rows@).len());
    PAD * 2 + n as i128 * ROW_HEIGHT
}

/// The height that the legend takes at the foot of the picture.
pub fn flow_legend_band(items: &Vec<LegendItem>, font: &Vec<u8>, img_w: i32) -> (h: i128)
    ensures
        h == box_height(font@, item_models(items@), img_w as int) + MARGIN,
        12 <= h <= 28 + 28 * usize::MAX,
{
    flow_legend_box_h(items, font, img_w) + MARGIN
}

// ---- Drawing ----

/// A figure of a drawing. Colours are red, green, blue and opacity.
#[derive(Clone, Copy, PartialEq, Eq, Structural, Debug)]
pub enum Figure {
    /// A half-transparent white ground.
    Wash { x: i128, y: i128, w: i128, h: i128 },
    /// The outline of a rectangle.
    Frame { x: i128, y: i128, w: i128, h: i128, color: u32 },
    /// A rectangle.
    Block { x: i128, y: i128, w: i128, h: i128, color: u32 },
    /// A line, broken or not.
    Line { x0: i128, y0: i128, x1: i128, y1: i128, color: u32, width: u8, dash: bool },
    /// The outline of a circle.
    Ring { x: i128, y: i128, r: u8, color: u32 },
    /// A circle.
    Disc { x: i128, y: i128, r: u8, color: u32 },
}

/// A step of a drawing: a figure, or words.
pub enum Shape {
    Draw(Figure),
    Words { x: i128, y: i128, px: u8, color: u32, text: String },
}

#[verifier::ext_equal]
pub enum ShapeModel {
    Draw(Figure),
    Words { x: int, y: int, px: u8, color: u32, text: Seq<char> },
}

impl View for Shape {
    type V = ShapeModel;

    open spec fn view(&self) -> ShapeModel {
        match *self {
            Shape::Draw(f) => ShapeModel::Draw(f),
            Shape::Words { x, y, px, color, text } => ShapeModel::Words {
                x: x as int,
                y: y as int,
                px,
                color,
                text: text@,
            },
        }
    }
}

pub open spec fn shape_models(shapes: Seq<Shape>) -> Seq<ShapeModel> {
    shapes.map_values(|s: Shape| s@)
}

/// Adds a figure to a drawing.
pub fn add_figure(shapes: &mut Vec<Shape>, f: Figure)
    ensures
        shape_models(final(shapes)@) == shape_models(old(shapes)@).push(ShapeModel::Draw(f)),
{
    shapes.push(Shape::Draw(f));
    assert(shape_models(shapes@) =~= shape_models(old(shapes)@).push(ShapeModel::Draw(f)));
}

/// Adds words to a drawing.
pub fn add_words(shapes: &mut Vec<Shape>, x: i128, y: i128, px: u8, color: u32, text: &str)
    ensures
        shape_models(final(shapes)@) == shape_models(old(shapes)@).push(
            ShapeModel::Words { x: x as int, y: y as int, px, color, text: text@ },
        ),
{
    let s = Shape::Words { x, y, px, color, text: text::copy_text(text) };
    let ghost m = s@;
    shapes.push(s);
    assert(shape_models(shapes@) =~= shape_models(old(shapes)@).push(m));
}

/// The sign of a unit at `x`, on the middle line `cy`.
pub open spec fn sign_shapes(mark: Mark, x: int, cy: int) -> Seq<ShapeModel> {
    let (x, cy) = (x as i128, cy as i128);
    match mark {
        Mark::Plain => Seq::empty(),
        Mark::Swatch(color) => seq![
            ShapeModel::Draw(
                Figure::Line {
                    x0: x,
                    y0: cy,
                    x1: (x + 22) as i128,
                    y1: cy,
                    color,
                    width: 6,
                    dash: false,
                },
            ),
        ],
        Mark::Thin(color) => seq![
            ShapeModel::Draw(
                Figure::Line {
                    x0: x,
                    y0: cy,
                    x1: (x + 22) as i128,
                    y1: cy,
                    color,
                    width: 3,
                    dash: true,
                },
            ),
        ],
        Mark::Marker => seq![
            ShapeModel::Draw(Figure::Ring { x: (x + 9) as i128, y: cy, r: 8, color: RING }),
            ShapeModel::Draw(Figure::Disc { x: (x + 9) as i128, y: cy, r: 2, color: RING }),
        ],
        Mark::Dot => seq![
            ShapeModel::Draw(Figure::Disc { x: (x + 9) as i128, y: cy, r: 5, color: RING }),
        ],
        Mark::Square => seq![
            ShapeModel::Draw(
                Figure::Block {
                    x: (x + 4) as i128,
                    y: (cy - 5) as i128,
                    w: 10,
                    h: 10,
                    color: RING,
                },
            ),
        ],
        Mark::Cross => seq![
            ShapeModel::Draw(
                Figure::Line {
                    x0: (x + 3) as i128,
                    y0: (cy - 6) as i128,
                    x1: (x + 15) as i128,
                    y1: (cy + 6) as i128,
                    color: RING,
                    width: 4,
                    dash: false,
                },
            ),
            ShapeModel::Draw(
                Figure::Line {
                    x0: (x + 3) as i128,
                    y0: (cy + 6) as i128,
                    x1: (x + 15) as i128,
                    y1: (cy - 6) as i128,
                    color: RING,
                    width: 4,
                    dash: false,
                },
            ),
        ],
    }
}

/// The top of a unit's words in a row whose top is `top`: they stand in its middle.
pub open spec fn words_top(font: Seq<u8>, s: Seq<char>, top: int) -> int {
    let free = ROW_HEIGHT - text_height(font, s);
    top + (if free > 0 {
        free
    } else {
        0
    }) / 2
}

/// A unit at `x`, in a row whose top is `top`.
pub open spec fn unit_shapes(font: Seq<u8>, u: UnitModel, x: int, top: int) -> Seq<ShapeModel> {
    let ty = words_top(font, u.text, top);
    sign_shapes(u.mark, x, ty + text_height(font, u.text) / 2).push(
        ShapeModel::Words {
            x: x + sign_width(u.mark),
            y: ty,
            px: LEGEND_PX,
            color: RING,
            text: u.text,
        },
    )
}

/// Where the next unit behind those of a row stands, if the row begins at `x`.
pub open spec fn next_x(units: Seq<UnitModel>, row: Seq<usize>, x: int) -> int
    decreases row.len(),
{
    if row.len() == 0 {
        x
    } else {
        next_x(units, row.drop_last(), x) + units[row.last() as int].width + GAP
    }
}

/// The units of a row.
pub open spec fn row_shapes(
    font: Seq<u8>,
    units: Seq<UnitModel>,
    row: Seq<usize>,
    x: int,
    top: int,
) -> Seq<ShapeModel>
    decreases row.len(),
{
    if row.len() == 0 {
        Seq::empty()
    } else {
        row_shapes(font, units, row.drop_last(), x, top) + unit_shapes(
            font,
            units[row.last() as int],
            next_x(units, row.drop_last(), x),
            top,
        )
    }
}

/// The rows, from a top on.
pub open spec fn rows_shapes(
    font: Seq<u8>,
    units: Seq<UnitModel>,
    rows: Seq<Seq<usize>>,
    x: int,
    top: int,
) -> Seq<ShapeModel>
    decreases rows.len(),
{
    if rows.len() == 0 {
        Seq::empty()
    } else {
        rows_shapes(font, units, rows.drop_last(), x, top) + row_shapes(
            font,
            units,
            rows.last(),
            x,
            top + (rows.len() - 1) * ROW_HEIGHT,
        )
    }
}

/// The legend at the foot of a picture: a ground, a frame and the rows; nothing where there is no
/// item beside the title.
pub open spec fn legend_drawing(font: Seq<u8>, items: Seq<ItemModel>, img_w: int, img_h: int) -> Seq<
    ShapeModel,
> {
    if items.len() <= 1 {
        Seq::empty()
    } else {
        let units = units_of(font, items, room(img_w));
        let rows = rows_of(units, room(img_w)).rows;
        let h = box_height(font, items, img_w);
        let top = img_h - MARGIN - h;
        let w = img_w - 2 * MARGIN;
        seq![
            ShapeModel::Draw(
                Figure::Wash { x: MARGIN, y: top as i128, w: w as i128, h: h as i128 },
            ),
            ShapeModel::Draw(
                Figure::Frame {
                    x: MARGIN,
                    y: top as i128,
                    w: w as i128,
                    h: h as i128,
                    color: RING,
                },
            ),
        ] + rows_shapes(font, units, rows, MARGIN + PAD, top + PAD)
    }
}

/// Draws the sign of a unit.
fn draw_sign(shapes: &mut Vec<Shape>, mark: Mark, x: i128, cy: i128)
    requires
        -0x1_0000_0000_0000_0000_0000_0000_0000 <= x <= 0x1_0000_0000_0000_0000_0000_0000_0000,
        -0x1_0000_0000_0000_0000_0000_0000_0000 <= cy <= 0x1_0000_0000_0000_0000_0000_0000_0000,
    ensures
        shape_models(final(shapes)@) == shape_models(old(shapes)@) + sign_shapes(
            mark,
            x as int,
            cy as int,
        ),
{
    let ghost before = shape_models(shapes@);
    match mark {
        Mark::Plain => {},
        Mark::Swatch(color) => add_figure(
            shapes,
            Figure::Line { x0: x, y0: cy, x1: x + 22, y1: cy, color, width: 6, dash: false },
        ),
        Mark::Thin(color) => add_figure(
            shapes,
            Figure::Line { x0: x, y0: cy, x1: x + 22, y1: cy, color, width: 3, dash: true },
        ),
        Mark::Marker => {
            add_figure(shapes, Figure::Ring { x: x + 9, y: cy, r: 8, color: RING });
            add_figure(shapes, Figure::Disc { x: x + 9, y: cy, r: 2, color: RING });
        },
        Mark::Dot => add_figure(shapes, Figure::Disc { x: x + 9, y: cy, r: 5, color: RING }),
        Mark::Square => add_figure(
            shapes,
            Figure::Block { x: x + 4, y: cy - 5, w: 10, h: 10, color: RING },
        ),
        Mark::Cross => {
            add_figure(
                shapes,
                Figure::Line {
                    x0: x + 3,
                    y0: cy - 6,
                    x1: x + 15,
                    y1: cy + 6,
                    color: RING,
                    width: 4,
                    dash: false,
                },
            );
            add_figure(
                shapes,
                Figure::Line {
                    x0: x + 3,
                    y0: cy + 6,
                    x1: x + 15,
                    y1: cy - 6,
                    color: RING,
                    width: 4,
                    dash: false,
                },
            );
        },
    }
    assert(shape_models(shapes@) =~= before + sign_shapes(mark, x as int, cy as int));
}

/// Draws a unit.
fn draw_unit(shapes: &mut Vec<Shape>, font: &Vec<u8>, u: &LegendUnit, x: i128, top: i128)
    requires
        -0x1_0000_0000_0000_0000_0000_0000 <= x <= 0x1_0000_0000_0000_0000_0000_0000_0000 - 64,
        -0x1_0000_0000_0000_0000_0000_0000 <= top <= 0x1_0000_0000_0000_0000_0000_0000,
    ensures
        shape_models(final(shapes)@) == shape_models(old(shapes)@) + unit_shapes(
            font@,
            u@,
            x as int,
            top as int,
        ),
{
    let ghost before = shape_models(shapes@);
    let th = measure(font, u.text.as_str()).1;
    let free: i128 = if ROW_HEIGHT > th {
        ROW_HEIGHT - th
    } else {
        0
    };
    let ty: i128 = top + free / 2;
    let cy: i128 = ty + th / 2;
    draw_sign(shapes, u.mark, x, cy);
    let wx: i128 = if u.mark == Mark::Plain {
        x
    } else {
        x + SIGN_WIDTH
    };
    add_words(shapes, wx, ty, LEGEND_PX, RING, u.text.as_str());
    assert(shape_models(shapes@) =~= before + unit_shapes(font@, u@, x as int, top as int));
}

/// Draws a row.
fn draw_row(
    shapes: &mut Vec<Shape>,
    font: &Vec<u8>,
    units: &Vec<LegendUnit>,
    row: &Vec<usize>,
    top: i128,
)
    requires
        forall|k: int| 0 <= k < row@.len() ==> (#[trigger] row@[k]) < units@.len(),
        forall|i: int| 0 <= i < units@.len() ==> 0 <= (#[trigger] units@[i]).width <= 0x2_0000_0000,
        -0x1_0000_0000_0000_0000_0000_0000 <= top <= 0x1_0000_0000_0000_0000_0000_0000,
    ensures
        shape_models(final(shapes)@) == shape_models(old(shapes)@) + row_shapes(
            font@,
            unit_models(units@),
            row@,
            20,
            top as int,
        ),
{
    let ghost before = shape_models(shapes@);
    let ghost all = unit_models(units@);
    let mut x: i128 = MARGIN + PAD;
    let mut k: usize = 0;
    assert(shape_models(shapes@) =~= before + row_shapes(
        font@,
        all,
        row@.take(0),
        20,
        top as int,
    ));
    while k < row.len()
        invariant
            k <= row@.len(),
            all == unit_models(units@),
            forall|k: int| 0 <= k < row@.len() ==> (#[trigger] row@[k]) < units@.len(),
            forall|i: int| 0 <= i < units@.len() ==> 0 <= (#[trigger] units@[i]).width <= 0x2_0000_0000,
            -0x1_0000_0000_0000_0000_0000_0000 <= top <= 0x1_0000_0000_0000_0000_0000_0000,
            x == next_x(all, row@.take(k as int), 20),
            20 <= x <= 20 + k * 0x2_0000_0020,
            shape_models(shapes@) == before + row_shapes(
                font@,
                all,
                row@.take(k as int),
                20,
                top as int,
            ),
        decreases row@.len() - k,
    {
        let i: usize = row[k];
        assert(units@[i as int].width <= 0x2_0000_0000);
        assert(row@.take(k + 1).drop_last() =~= row@.take(k as int));
        draw_unit(shapes, font, &units[i], x, top);
        x = x + units[i].width + GAP;
        assert(shape_models(shapes@) =~= before + row_shapes(
            font@,
            all,
            row@.take(k + 1),
            20,
            top as int,
        ));
        k = k + 1;
    }
    assert(row@.take(row@.len() as int) =~= row@);
}

/// The legend at the foot of a picture of a size.
pub fn draw_flow_legend(items: &Vec<LegendItem>, font: &Vec<u8>, img_w: i32, img_h: i32) -> (r: Vec<
    Shape,
>)
    ensures
        shape_models(r@) == legend_drawing(
            font@,
            item_models(items@),
            img_w as int,
            img_h as int,
        ),
{
    let mut shapes: Vec<Shape> = Vec::new();
    if items.len() <= 1 {
        assert(shape_models(shapes@) =~= Seq::<ShapeModel>::empty());
        return shapes;
    }
    let units = legend_units(items, font, img_w);
    let max_w: i128 = img_w as i128 - 2 * MARGIN - 2 * PAD;
    let rows = legend_rows(&units, max_w);
    let ghost all = unit_models(units@);
    let ghost views = row_views(rows@);
    let n: usize = rows.len();
    let h: i128 = PAD * 2 + n as i128 * ROW_HEIGHT;
    let top: i128 = img_h as i128 - MARGIN - h;
    let w: i128 = img_w as i128 - 2 * MARGIN;
    add_figure(&mut shapes, Figure::Wash { x: MARGIN, y: top, w, h });
    add_figure(&mut shapes, Figure::Frame { x: MARGIN, y: top, w, h, color: RING });
    let ghost head = shape_models(shapes@);
    let mut r: usize = 0;
    proof {
        let units_len: usize = units.len();
        assert(all.len() == units_len);
        law_rows_fit(all, max_w as int);
        assert(head =~= seq![
            ShapeModel::Draw(Figure::Wash { x: MARGIN, y: top, w, h }),
            ShapeModel::Draw(Figure::Frame { x: MARGIN, y: top, w, h, color: RING }),
        ]);
        assert(head =~= head + rows_shapes(font@, all, views.take(0), 20, top + PAD));
    }
    while r < rows.len()
        invariant
            r <= rows@.len(),
            rows@.len() == n,
            all == unit_models(units@),
            views == row_views(rows@),
            forall|i: int| 0 <= i < units@.len() ==> 0 <= (#[trigger] units@[i]).width <= 0x2_0000_0000,
            forall|r: int| 0 <= r < views.len() ==> row_fits(all, #[trigger] views[r], max_w as int),
            top == img_h - MARGIN - (PAD * 2 + n * ROW_HEIGHT),
            shape_models(shapes@) == head + rows_shapes(
                font@,
                all,
                views.take(r as int),
                20,
                top + PAD,
            ),
        decreases rows@.len() - r,
    {
        assert(views[r as int] == rows@[r as int]@);
        assert forall|k: int| 0 <= k < rows@[r as int]@.len() implies (#[trigger] rows@[r as int]@[k])
            < units@.len() by {
            assert(row_fits(all, views[r as int], max_w as int));
            assert(views[r as int][k] < all.len());
        }
        let ghost before = shape_models(shapes@);
        draw_row(&mut shapes, font, &units, &rows[r], top + PAD + r as i128 * ROW_HEIGHT);
        proof {
            assert(views.take(r + 1).drop_last() =~= views.take(r as int));
            assert(views.take(r + 1).last() == rows@[r as int]@);
            assert(shape_models(shapes@) =~= head + rows_shapes(
                font@,
                all,
                views.take(r + 1),
                20,
                top + PAD,
            ));
        }
        r = r + 1;
    }
    assert(views.take(views.len() as int) =~= views);
    shapes
}

// ---- How a legend is laid out ----

/// A sign takes 28 pixels and no sign takes none; between the margins of 12 and the pads of 8 on both
/// sides lies the room for text, in a letter size of 18.
pub proof fn law_signs_and_margins_take_room(font: Seq<u8>, mark: Mark, s: Seq<char>, img_w: int)
    ensures
        sign_width(Mark::Plain) == 0,
        mark != Mark::Plain ==> sign_width(mark) == 28,
        room(img_w) == img_w - 40,
        text_pixels(font, 18, s) matches Some(p) ==> text_width(font, s) == p.0 && text_height(font, s)
            == p.1,
        text_pixels(font, 18, s) is None ==> text_width(font, s) == 0 && text_height(font, s) == 0,
        is_font(font) <==> text_pixels(font, 18, Seq::empty()) is Some,
{
}

/// An item that fits, or that nothing beside its sign could fit, stays whole.
pub proof fn law_items_that_fit_stay_whole(font: Seq<u8>, item: ItemModel, max_w: int)
    ensures
        sign_width(item.mark) + text_width(font, item.text) <= max_w || max_w <= sign_width(item.mark)
            ==> item_units(font, item, max_w) == seq![
            UnitModel {
                mark: item.mark,
                text: item.text,
                width: sign_width(item.mark) + text_width(font, item.text),
                break_before: false,
            },
        ],
{
}

proof fn lemma_piece_is_full(font: Seq<u8>, s: Seq<char>, from: int, to: int, most: int)
    requires
        0 <= from <= to <= s.len(),
        from < s.len(),
    ensures
        ({
            let e = piece_end(font, s, from, to, most);
            e < s.len() ==> text_width(font, s.subrange(from, e + 1)) > most
        }),
    decreases s.len() - to,
{
    if to < s.len() && !(to > from && text_width(font, s.subrange(from, to + 1)) > most) {
        lemma_piece_is_full(font, s, from, to + 1, most);
    }
}

/// A piece of an item that is cut takes as many characters as fit and one at least; the first one
/// leaves room for two signs, the others for one. The next piece begins where it ends.
pub proof fn law_pieces_are_full(
    font: Seq<u8>,
    mark: Mark,
    s: Seq<char>,
    from: int,
    max_w: int,
) -> (to: int)
    requires
        0 <= from < s.len(),
    ensures
        ({
            let most = if from == 0 {
                max_w - 2 * sign_width(mark)
            } else {
                max_w - sign_width(mark)
            };
            let first = pieces(font, mark, s, from, max_w)[0];
            &&& from < to <= s.len()
            &&& to == from + 1 || text_width(font, s.subrange(from, to)) <= most
            &&& to < s.len() ==> text_width(font, s.subrange(from, to + 1)) > most
            &&& first.text == s.subrange(from, to)
            &&& first.break_before == (from > 0)
            &&& from == 0 ==> first.mark == mark && first.width == sign_width(mark) + text_width(
                font,
                first.text,
            )
            &&& from > 0 ==> first.mark == Mark::Plain && first.width == text_width(font, first.text)
            &&& pieces(font, mark, s, from, max_w).drop_first() == pieces(font, mark, s, to, max_w)
        }),
{
    let most = piece_room(mark, from, max_w);
    let to = piece_end(font, s, from, from, most);
    lemma_piece_end(font, s, from, from, most);
    lemma_piece_fits(font, s, from, from, most);
    lemma_piece_is_full(font, s, from, from, most);
    assert(pieces(font, mark, s, from, max_w).drop_first() =~= pieces(font, mark, s, to, max_w));
    to
}

/// A legend begins with an empty row. A unit goes behind the last one of the last row, 18 pixels
/// apart, and into a row of its own where it begins one or does not fit.
pub proof fn law_units_fill_rows(units: Seq<UnitModel>, u: UnitModel, max_w: int)
    requires
        units.len() < usize::MAX,
    ensures
        ({
            let rows = rows_of(units, max_w).rows;
            let after = rows_of(units.push(u), max_w).rows;
            let last = rows.last();
            let n = units.len() as usize;
            &&& rows_of(Seq::empty(), max_w).rows == seq![Seq::<usize>::empty()]
            &&& rows.len() > 0
            &&& last.len() > 0 && (u.break_before || row_width(units, last) + u.width + 18 > max_w)
                ==> after == rows.push(seq![n])
            &&& last.len() == 0 || !(u.break_before || row_width(units, last) + u.width + 18 > max_w)
                ==> after == rows.drop_last().push(last.push(n))
        }),
{
    lemma_rows_hold(units, units.len() as int, max_w);
    assert(units.take(units.len() as int) =~= units);
    assert(units.push(u).drop_last() =~= units);
}

/// A row is as wide as its units with 18 pixels between them.
pub proof fn law_rows_have_their_width(units: Seq<UnitModel>, row: Seq<usize>, i: usize)
    ensures
        row_width(units, Seq::empty()) == 0,
        row_width(units, seq![i]) == units[i as int].width,
        row.len() > 0 ==> row_width(units, row.push(i)) == row_width(units, row) + 18 + units[i as int].width,
{
    assert(row.push(i).drop_last() =~= row);
}

/// A legend of one item or none is not drawn; otherwise its box is as high as its rows of 28 pixels and
/// two pads of 8, stands 12 pixels from three sides of the picture, and holds the rows.
pub proof fn law_legends_have_a_box(font: Seq<u8>, items: Seq<ItemModel>, img_w: int, img_h: int)
    ensures
        items.len() <= 1 ==> box_height(font, items, img_w) == 0 && legend_drawing(
            font,
            items,
            img_w,
            img_h,
        ).len() == 0,
        items.len() > 1 ==> ({
            let units = units_of(font, items, img_w - 40);
            let rows = rows_of(units, img_w - 40).rows;
            let h = 16 + 28 * rows.len();
            let d = legend_drawing(font, items, img_w, img_h);
            &&& box_height(font, items, img_w) == h
            &&& d.len() >= 2
            &&& d[0] == ShapeModel::Draw(
                Figure::Wash {
                    x: 12,
                    y: (img_h - 12 - h) as i128,
                    w: (img_w - 24) as i128,
                    h: h as i128,
                },
            )
            &&& d[1] == ShapeModel::Draw(
                Figure::Frame {
                    x: 12,
                    y: (img_h - 12 - h) as i128,
                    w: (img_w - 24) as i128,
                    h: h as i128,
                    color: 0x1E293BFF,
                },
            )
            &&& d.skip(2) == rows_shapes(font, units, rows, 20, img_h - 12 - h + 8)
        }),
{
    if items.len() > 1 {
        let units = units_of(font, items, room(img_w));
        let rows = rows_of(units, room(img_w)).rows;
        let h = box_height(font, items, img_w);
        assert(rows.len() * ROW_HEIGHT == 28 * rows.len()) by (nonlinear_arith)
            requires
                ROW_HEIGHT == 28,
        ;
        assert(legend_drawing(font, items, img_w, img_h).skip(2) =~= rows_shapes(
            font,
            units,
            rows,
            20,
            img_h - 12 - h + 8,
        ));
    }
}

/// Rows stand 28 pixels below each other, and in a row each unit 18 pixels behind the one before.
pub proof fn law_rows_and_units_stand_in_order(
    font: Seq<u8>,
    units: Seq<UnitModel>,
    rows: Seq<Seq<usize>>,
    row: Seq<usize>,
    i: usize,
    x: int,
    top: int,
)
    ensures
        rows_shapes(font, units, Seq::empty(), x, top).len() == 0,
        rows_shapes(font, units, rows.push(row), x, top) == rows_shapes(font, units, rows, x, top)
            + row_shapes(font, units, row, x, top + 28 * rows.len()),
        row_shapes(font, units, Seq::empty(), x, top).len() == 0,
        row_shapes(font, units, row.push(i), x, top) == row_shapes(font, units, row, x, top)
            + unit_shapes(font, units[i as int], next_x(units, row, x), top),
        next_x(units, Seq::empty(), x) == x,
        next_x(units, row.push(i), x) == next_x(units, row, x) + units[i as int].width + 18,
{
    assert(rows.push(row).drop_last() =~= rows);
    assert(row.push(i).drop_last() =~= row);
    assert((rows.push(row).len() - 1) * ROW_HEIGHT == 28 * rows.len()) by (nonlinear_arith)
        requires
            ROW_HEIGHT == 28,
            rows.push(row).len() == rows.len() + 1,
    ;
}

/// The words of a unit stand in the middle of their row, behind the sign, which stands at the middle of
/// the words.
pub proof fn law_words_stand_in_the_middle(font: Seq<u8>, u: UnitModel, x: int, top: int)
    ensures
        ({
            let h = text_height(font, u.text);
            let above = words_top(font, u.text, top) - top;
            let below = 28 - h - above;
            let shapes = unit_shapes(font, u, x, top);
            &&& h <= 28 ==> above == below || above + 1 == below
            &&& h > 28 ==> above == 0
            &&& shapes.last() == (ShapeModel::Words {
                x: x + sign_width(u.mark),
                y: top + above,
                px: 18,
                color: 0x1E293BFF,
                text: u.text,
            })
            &&& shapes.drop_last() == sign_shapes(u.mark, x, top + above + h / 2)
        }),
{
    let ty = words_top(font, u.text, top);
    assert(unit_shapes(font, u, x, top).drop_last() =~= sign_shapes(
        u.mark,
        x,
        ty + text_height(font, u.text) / 2,
    ));
}

/// Each mark has its sign: a thick or a broken line of its colour, a ring round a dot, a dot, a square,
/// or two crossing lines.
pub proof fn law_marks_have_their_signs(x: i128, cy: i128, color: u32)
    ensures
        sign_shapes(Mark::Plain, x as int, cy as int).len() == 0,
        sign_shapes(Mark::Swatch(color), x as int, cy as int) == seq![
            ShapeModel::Draw(
                Figure::Line {
                    x0: x,
                    y0: cy,
                    x1: (x + 22) as i128,
                    y1: cy,
                    color,
                    width: 6,
                    dash: false,
                },
            ),
        ],
        sign_shapes(Mark::Thin(color), x as int, cy as int) == seq![
            ShapeModel::Draw(
                Figure::Line {
                    x0: x,
                    y0: cy,
                    x1: (x + 22) as i128,
                    y1: cy,
                    color,
                    width: 3,
                    dash: true,
                },
            ),
        ],
        sign_shapes(Mark::Marker, x as int, cy as int) == seq![
            ShapeModel::Draw(Figure::Ring { x: (x + 9) as i128, y: cy, r: 8, color: 0x1E293BFF }),
            ShapeModel::Draw(Figure::Disc { x: (x + 9) as i128, y: cy, r: 2, color: 0x1E293BFF }),
        ],
        sign_shapes(Mark::Dot, x as int, cy as int) == seq![
            ShapeModel::Draw(Figure::Disc { x: (x + 9) as i128, y: cy, r: 5, color: 0x1E293BFF }),
        ],
        sign_shapes(Mark::Square, x as int, cy as int) == seq![
            ShapeModel::Draw(
                Figure::Block {
                    x: (x + 4) as i128,
                    y: (cy - 5) as i128,
                    w: 10,
                    h: 10,
                    color: 0x1E293BFF,
                },
            ),
        ],
        sign_shapes(Mark::Cross, x as int, cy as int) == seq![
            ShapeModel::Draw(
                Figure::Line {
                    x0: (x + 3) as i128,
                    y0: (cy - 6) as i128,
                    x1: (x + 15) as i128,
                    y1: (cy + 6) as i128,
                    color: 0x1E293BFF,
                    width: 4,
                    dash: false,
                },
            ),
            ShapeModel::Draw(
                Figure::Line {
                    x0: (x + 3) as i128,
                    y0: (cy + 6) as i128,
                    x1: (x + 15) as i128,
                    y1: (cy - 6) as i128,
                    color: 0x1E293BFF,
                    width: 4,
                    dash: false,
                },
            ),
        ],
{
}

} // verus!
