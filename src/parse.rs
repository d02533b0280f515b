use vstd::prelude::*;

use crate::field::{covers, Field, Pixel};
use crate::text::{
    chars_of, is_number, number_value, parse_number, split_chars, split_on, trim, trim_chars,
    views,
};

verus! {

/// Why a map text was rejected.
#[derive(Clone, Copy, Debug, PartialEq, Eq, Structural)]
pub enum ParseError {
    /// The first line does not start with two decimal numbers that fit in `usize`.
    MalformedHeader,
    /// The number of row lines differs from the declared height.
    RowCountMismatch,
    /// A trimmed row line differs in length from the declared width.
    RowWidthMismatch,
}

/// The lines of the map text.
pub open spec fn text_lines(text: Seq<char>) -> Seq<Seq<char>> {
    split_on(text, '\n')
}

/// The pieces of the first line, split at each space.
pub open spec fn header_fields(text: Seq<char>) -> Seq<Seq<char>> {
    split_on(text_lines(text)[0], ' ')
}

/// The first two pieces of the first line are decimal numbers that fit in `usize`.
pub open spec fn header_valid(text: Seq<char>) -> bool {
    let f = header_fields(text);
    &&& f.len() >= 2
    &&& is_number(f[0]) && number_value(f[0]) <= usize::MAX
    &&& is_number(f[1]) && number_value(f[1]) <= usize::MAX
}

/// The declared number of rows: the first number of the header.
pub open spec fn declared_height(text: Seq<char>) -> nat {
    number_value(header_fields(text)[0])
}

/// The declared number of columns: the second number of the header.
pub open spec fn declared_width(text: Seq<char>) -> nat {
    number_value(header_fields(text)[1])
}

/// The row lines that follow the header, each trimmed of surrounding white space.
pub open spec fn grid_rows(text: Seq<char>) -> Seq<Seq<char>> {
    text_lines(text).drop_first().map_values(|l: Seq<char>| trim(l))
}

/// As many row lines follow the header as it declares rows.
pub open spec fn row_count_matches(text: Seq<char>) -> bool {
    grid_rows(text).len() == declared_height(text)
}

/// Every trimmed row line is as long as the declared width.
pub open spec fn row_widths_match(text: Seq<char>) -> bool {
    forall|y: int|
        0 <= y < grid_rows(text).len() ==> (#[trigger] grid_rows(text)[y]).len() == declared_width(
            text,
        )
}

/// `f` holds a figure cell exactly where `rows` has `p`, and a landscape cell exactly
/// where it has `#`.
pub open spec fn shows(f: Field, rows: Seq<Seq<char>>) -> bool {
    forall|x: int, y: int|
        #![trigger covers(f.figure@, x, y)]
        #![trigger covers(f.landscape@, x, y)]
        #![trigger rows[y][x]]
        0 <= y < f.height && 0 <= x < f.width ==> {
            &&& covers(f.figure@, x, y) <==> rows[y][x] == 'p'
            &&& covers(f.landscape@, x, y) <==> rows[y][x] == '#'
        }
}

/// Cell (x, y) of the map lies before column `cx` of row `cy`, row by row.
pub open spec fn earlier(x: int, y: int, cx: int, cy: int) -> bool {
    y < cy || (y == cy && x < cx)
}

/// Every pixel of `pixels` lies before (cx, cy) on a cell of `rows` holding `mark`.
pub open spec fn only_marks(
    pixels: Seq<Pixel>,
    rows: Seq<Seq<char>>,
    mark: char,
    cx: int,
    cy: int,
) -> bool {
    forall|i: int|
        0 <= i < pixels.len() ==> {
            let p = #[trigger] pixels[i];
            &&& earlier(p.x as int, p.y as int, cx, cy)
            &&& p.y < rows.len()
            &&& p.x < rows[p.y as int].len()
            &&& rows[p.y as int][p.x as int] == mark
        }
}

/// The pixels run strictly in reading order: by row, then by column.
pub open spec fn in_reading_order(pixels: Seq<Pixel>) -> bool {
    forall|i: int, j: int|
        #![trigger pixels[i], pixels[j]]
        0 <= i < j < pixels.len() ==> earlier(
            pixels[i].x as int,
            pixels[i].y as int,
            pixels[j].x as int,
            pixels[j].y as int,
        )
}

/// Every cell of `rows` before (cx, cy) that holds `mark` is covered by `pixels`.
pub open spec fn all_marks(
    pixels: Seq<Pixel>,
    rows: Seq<Seq<char>>,
    mark: char,
    width: int,
    cx: int,
    cy: int,
) -> bool {
    forall|x: int, y: int|
        0 <= y < rows.len() && 0 <= x < width && x < rows[y].len() && earlier(x, y, cx, cy)
            && #[trigger] rows[y][x] == mark ==> covers(pixels, x, y)
}

proof fn lemma_covers_push(s: Seq<Pixel>, p: Pixel, x: int, y: int)
    requires
        covers(s, x, y),
    ensures
        covers(s.push(p), x, y),
{
    let i = choose|i: int| 0 <= i < s.len() && s[i].x == x && s[i].y == y;
    assert(s.push(p)[i] == s[i]);
}

proof fn lemma_mark_added(
    old_pixels: Seq<Pixel>,
    rows: Seq<Seq<char>>,
    mark: char,
    width: int,
    cx: usize,
    cy: usize,
    added: bool,
    pixels: Seq<Pixel>,
)
    requires
        cy < rows.len(),
        cx < width == rows[cy as int].len(),
        only_marks(old_pixels, rows, mark, cx as int, cy as int),
        all_marks(old_pixels, rows, mark, width, cx as int, cy as int),
        in_reading_order(old_pixels),
        added <==> rows[cy as int][cx as int] == mark,
        pixels == (if added {
            old_pixels.push(Pixel { x: cx, y: cy })
        } else {
            old_pixels
        }),
    ensures
        only_marks(pixels, rows, mark, cx + 1, cy as int),
        all_marks(pixels, rows, mark, width, cx + 1, cy as int),
        in_reading_order(pixels),
{
    assert forall|x: int, y: int|
        0 <= y < rows.len() && 0 <= x < width && x < rows[y].len() && earlier(x, y, cx + 1, cy as int)
            && #[trigger] rows[y][x] == mark implies covers(pixels, x, y) by {
        if earlier(x, y, cx as int, cy as int) {
            if added {
                lemma_covers_push(old_pixels, Pixel { x: cx, y: cy }, x, y);
            }
        } else {
            assert(pixels[pixels.len() - 1] == Pixel { x: cx, y: cy });
        }
    }
}

/// Reads a map: a header line `height width`, then `height` row lines. After
/// trimming, each row line must be `width` characters long; in it `#` marks a
/// landscape cell, `p` a figure cell, and any other character an empty cell.
pub fn parse_into_field(text: &str) -> (r: Result<Field, ParseError>)
    ensures
        !header_valid(text@) ==> r == Err::<Field, ParseError>(ParseError::MalformedHeader),
        header_valid(text@) && !row_count_matches(text@) ==> r == Err::<Field, ParseError>(
            ParseError::RowCountMismatch,
        ),
        header_valid(text@) && row_count_matches(text@) && !row_widths_match(text@) ==> r == Err::<
            Field,
            ParseError,
        >(ParseError::RowWidthMismatch),
        header_valid(text@) && row_count_matches(text@) && row_widths_match(text@) ==> {
            &&& r is Ok
            &&& r->Ok_0.wf()
            &&& r->Ok_0.width == declared_width(text@)
            &&& r->Ok_0.height == declared_height(text@)
            &&& shows(r->Ok_0, grid_rows(text@))
            &&& in_reading_order(r->Ok_0.figure@)
            &&& in_reading_order(r->Ok_0.landscape@)
        },
{
    let chars = chars_of(text);
    let lines = split_chars(&chars, '\n');
    proof {
        crate::text::lemma_split_nonempty(chars@, '\n');
    }
    assert(lines@[0]@ == text_lines(text@)[0]);
    let fields = split_chars(&lines[0], ' ');
    if fields.len() < 2 {
        return Err(ParseError::MalformedHeader);
    }
    assert(fields@[0]@ == header_fields(text@)[0]);
    assert(fields@[1]@ == header_fields(text@)[1]);
    let height = match parse_number(&fields[0]) {
        Some(h) => h,
        None => {
            return Err(ParseError::MalformedHeader);
        },
    };
    let width = match parse_number(&fields[1]) {
        Some(w) => w,
        None => {
            return Err(ParseError::MalformedHeader);
        },
    };
    let ghost rows = grid_rows(text@);
    if lines.len() - 1 != height {
        return Err(ParseError::RowCountMismatch);
    }
    let mut field = Field::new(width, height);
    let mut y: usize = 0;
    while y < height
        invariant
            y <= height,
            header_valid(text@),
            height == declared_height(text@),
            width == declared_width(text@),
            rows == grid_rows(text@),
            rows.len() == height,
            views(lines@) == text_lines(text@),
            lines@.len() == height + 1,
            field.width == width,
            field.height == height,
            forall|j: int| 0 <= j < y ==> (#[trigger] rows[j]).len() == width,
            only_marks(field.figure@, rows, 'p', 0, y as int),
            all_marks(field.figure@, rows, 'p', width as int, 0, y as int),
            only_marks(field.landscape@, rows, '#', 0, y as int),
            all_marks(field.landscape@, rows, '#', width as int, 0, y as int),
            in_reading_order(field.figure@),
            in_reading_order(field.landscape@),
        decreases height - y,
    {
        assert(lines@[y + 1]@ == text_lines(text@)[y + 1]);
        let row = trim_chars(&lines[y + 1]);
        assert(row@ == rows[y as int]);
        if row.len() != width {
            return Err(ParseError::RowWidthMismatch);
        }
        let mut x: usize = 0;
        while x < width
            invariant
                x <= width,
                y < height,
                rows.len() == height,
                row@ == rows[y as int],
                row@.len() == width,
                field.width == width,
                field.height == height,
                only_marks(field.figure@, rows, 'p', x as int, y as int),
                all_marks(field.figure@, rows, 'p', width as int, x as int, y as int),
                only_marks(field.landscape@, rows, '#', x as int, y as int),
                all_marks(field.landscape@, rows, '#', width as int, x as int, y as int),
                in_reading_order(field.figure@),
                in_reading_order(field.landscape@),
            decreases width - x,
        {
            let c = row[x];
            let ghost fig = field.figure@;
            let ghost land = field.landscape@;
            if c == 'p' {
                field.figure.push(Pixel { x, y });
            } else if c == '#' {
                field.landscape.push(Pixel { x, y });
            }
            proof {
                lemma_mark_added(fig, rows, 'p', width as int, x, y, c == 'p', field.figure@);
                lemma_mark_added(land, rows, '#', width as int, x, y, c == '#', field.landscape@);
            }
            x = x + 1;
        }
        assert(only_marks(field.figure@, rows, 'p', 0, y + 1));
        assert(all_marks(field.figure@, rows, 'p', width as int, 0, y + 1));
        assert(only_marks(field.landscape@, rows, '#', 0, y + 1));
        assert(all_marks(field.landscape@, rows, '#', width as int, 0, y + 1));
        y = y + 1;
    }
    Ok(field)
}

} // verus!
