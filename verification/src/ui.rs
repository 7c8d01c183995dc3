use crate::command::clear::{debug_text, row_views, RowView, ScanRow};
use crate::human::size_text;
use vstd::prelude::*;

pub mod router;

verus! {

/// The lines of the scroll bar that one row of the table takes.
pub const ITEM_HEIGHT: usize = 4;

/// How many palettes there are to choose from.
pub const PALETTE_COUNT: usize = 4;

/// A family of colours.
#[derive(Debug, Clone, Copy, PartialEq, Eq, Structural)]
pub enum Hue {
    Slate,
    Red,
    Blue,
    Emerald,
    Indigo,
}

/// One colour: a family and the level of its shade, from 50 (light) to 950
/// (dark).
#[derive(Debug, Clone, Copy, PartialEq, Eq, Structural)]
pub struct Tone {
    pub hue: Hue,
    pub level: u16,
}

/// The colours of the table.
#[derive(Debug, Clone, Copy, PartialEq, Eq, Structural)]
pub struct TableColors {
    pub buffer_bg: Tone,
    pub header_bg: Tone,
    pub header_fg: Tone,
    pub row_fg: Tone,
    pub selected_style_fg: Tone,
    pub normal_row_color: Tone,
    pub alt_row_color: Tone,
    pub footer_border_color: Tone,
}

/// A key of the keyboard, as far as the table tells keys apart.
#[derive(Debug, Clone, Copy, PartialEq, Eq, Structural)]
pub enum Key {
    Char(char),
    Esc,
    Enter,
    Up,
    Down,
    Left,
    Right,
    Other,
}

/// What a key asks of the table.
#[derive(Debug, Clone, Copy, PartialEq, Eq, Structural)]
pub enum Command {
    /// Close the table; nothing is to be removed.
    Quit,
    /// Close the table; the removal may go ahead.
    Confirm,
    /// Select the row below.
    Next,
    /// Select the row above.
    Previous,
    /// Take the next palette.
    NextColor,
    /// Take the palette before.
    PreviousColor,
    /// Nothing.
    Nothing,
}

/// The palette at position `index` of the choice.
pub open spec fn palette_at(index: int) -> Hue {
    if index == 0 {
        Hue::Red
    } else if index == 1 {
        Hue::Blue
    } else if index == 2 {
        Hue::Emerald
    } else {
        Hue::Indigo
    }
}

/// The colours of the table for one palette: the header on its darkest but
/// one shade, selection and border on a middle shade, the rest on slate.
pub open spec fn colors_of(hue: Hue) -> TableColors {
    TableColors {
        buffer_bg: Tone { hue: Hue::Slate, level: 950 },
        header_bg: Tone { hue, level: 900 },
        header_fg: Tone { hue: Hue::Slate, level: 200 },
        row_fg: Tone { hue: Hue::Slate, level: 200 },
        selected_style_fg: Tone { hue, level: 400 },
        normal_row_color: Tone { hue: Hue::Slate, level: 950 },
        alt_row_color: Tone { hue: Hue::Slate, level: 900 },
        footer_border_color: Tone { hue, level: 400 },
    }
}

/// What a key asks for. Only a key that was pressed asks for anything.
pub open spec fn command_of(key: Key, pressed: bool) -> Command {
    if !pressed {
        Command::Nothing
    } else {
        match key {
            Key::Char('q') | Key::Esc => Command::Quit,
            Key::Char('y') | Key::Enter => Command::Confirm,
            Key::Char('j') | Key::Down => Command::Next,
            Key::Char('k') | Key::Up => Command::Previous,
            Key::Char('l') | Key::Right => Command::NextColor,
            Key::Char('h') | Key::Left => Command::PreviousColor,
            _ => Command::Nothing,
        }
    }
}

/// The row selected after a step down among `rows` rows: the first row after
/// the last, and where none was selected.
pub open spec fn next_index(selected: Option<usize>, rows: int) -> int {
    match selected {
        Some(i) => if i >= rows - 1 {
            0
        } else {
            i + 1
        },
        None => 0,
    }
}

/// The row selected after a step up among `rows` rows: the last row before
/// the first, and the first where none was selected.
pub open spec fn previous_index(selected: Option<usize>, rows: int) -> int {
    match selected {
        Some(i) => if i == 0 {
            rows - 1
        } else {
            i - 1
        },
        None => 0,
    }
}

impl TableColors {
    /// The colours of the table for the palette `color`.
    pub fn new(color: Hue) -> (colors: Self)
        ensures
            colors == colors_of(color),
    {
        TableColors {
            buffer_bg: Tone { hue: Hue::Slate, level: 950 },
            header_bg: Tone { hue: color, level: 900 },
            header_fg: Tone { hue: Hue::Slate, level: 200 },
            row_fg: Tone { hue: Hue::Slate, level: 200 },
            selected_style_fg: Tone { hue: color, level: 400 },
            normal_row_color: Tone { hue: Hue::Slate, level: 950 },
            alt_row_color: Tone { hue: Hue::Slate, level: 900 },
            footer_border_color: Tone { hue: color, level: 400 },
        }
    }

    /// The background of the row at position `index`: rows take turns.
    pub fn row_bg(&self, index: usize) -> (tone: Tone)
        ensures
            tone == if index % 2 == 0 {
                self.normal_row_color
            } else {
                self.alt_row_color
            },
    {
        if index % 2 == 0 {
            self.normal_row_color
        } else {
            self.alt_row_color
        }
    }
}

/// The palette at position `index` of the choice.
pub fn palette(index: usize) -> (hue: Hue)
    requires
        index < PALETTE_COUNT,
    ensures
        hue == palette_at(index as int),
{
    if index == 0 {
        Hue::Red
    } else if index == 1 {
        Hue::Blue
    } else if index == 2 {
        Hue::Emerald
    } else {
        Hue::Indigo
    }
}

/// What a key asks of the table.
pub fn command_for(key: Key, pressed: bool) -> (command: Command)
    ensures
        command == command_of(key, pressed),
{
    if !pressed {
        return Command::Nothing;
    }
    match key {
        Key::Char('q') | Key::Esc => Command::Quit,
        Key::Char('y') | Key::Enter => Command::Confirm,
        Key::Char('j') | Key::Down => Command::Next,
        Key::Char('k') | Key::Up => Command::Previous,
        Key::Char('l') | Key::Right => Command::NextColor,
        Key::Char('h') | Key::Left => Command::PreviousColor,
        _ => Command::Nothing,
    }
}

/// The code with which the table closes on `command`: 1 on a quit, 0 on a
/// confirmation; any other command leaves it open.
pub fn exit_code(command: Command) -> (code: Option<usize>)
    ensures
        code == match command {
            Command::Quit => Some(1usize),
            Command::Confirm => Some(0usize),
            _ => None,
        },
{
    match command {
        Command::Quit => Some(1),
        Command::Confirm => Some(0),
        _ => None,
    }
}

/// The code that the interactive flow hands on: the code with which the
/// table closed, or 2 where the terminal failed.
pub fn boot_code(closed: Option<usize>) -> (code: usize)
    ensures
        code == match closed {
            Some(code) => code,
            None => 2usize,
        },
{
    match closed {
        Some(code) => code,
        None => 2,
    }
}

/// The state of the table: the selected row, the scroll bar, the palette.
#[derive(Debug)]
pub struct App {
    selected: Option<usize>,
    scroll_len: usize,
    scroll_position: usize,
    colors: TableColors,
    color_index: usize,
    longest_item_lens: Vec<usize>,
}

impl App {
    #[verifier::type_invariant]
    spec fn in_range(self) -> bool {
        &&& self.color_index < PALETTE_COUNT
        &&& self.selected matches Some(i) ==> i * ITEM_HEIGHT <= usize::MAX
    }

    /// The selected row.
    pub closed spec fn selected(&self) -> Option<usize> {
        self.selected
    }

    /// The length of the scroll bar's content.
    pub closed spec fn scroll_len(&self) -> int {
        self.scroll_len as int
    }

    /// The position of the scroll bar.
    pub closed spec fn scroll_position(&self) -> int {
        self.scroll_position as int
    }

    /// The position of the palette in use.
    pub closed spec fn color_index(&self) -> int {
        self.color_index as int
    }

    /// The colours in use.
    pub closed spec fn colors(&self) -> TableColors {
        self.colors
    }

    /// The widest cell of each column when the table was opened.
    pub closed spec fn longest_item_lens(&self) -> Seq<usize> {
        self.longest_item_lens@
    }

    /// The table as it opens over `rows`: the first row selected, the scroll
    /// bar at the top, the first palette.
    pub fn new(rows: &Vec<ScanRow>) -> (app: Self)
        ensures
            app.selected() == Some(0usize),
            app.scroll_len() == 0,
            app.scroll_position() == 0,
            app.color_index() == 0,
            app.colors() == colors_of(palette_at(0)),
            app.longest_item_lens().len() == 4,
            forall|col: int|
                0 <= col < 4 ==> app.longest_item_lens()[col] == #[trigger] column_width(
                    row_views(rows@),
                    col,
                ),
    {
        App {
            selected: Some(0),
            scroll_len: 0,
            scroll_position: 0,
            colors: TableColors::new(palette(0)),
            color_index: 0,
            longest_item_lens: constraint_len_calculator(rows),
        }
    }

    fn place(&mut self, index: usize, rows: usize)
        requires
            rows > 0,
            index * ITEM_HEIGHT <= usize::MAX,
            (rows - 1) * ITEM_HEIGHT <= usize::MAX,
        ensures
            final(self).selected() == Some(index),
            final(self).scroll_len() == (rows - 1) * ITEM_HEIGHT,
            final(self).scroll_position() == index * ITEM_HEIGHT,
            final(self).color_index() == old(self).color_index(),
            final(self).colors() == old(self).colors(),
            final(self).longest_item_lens() == old(self).longest_item_lens(),
    {
        proof {
            use_type_invariant(&*self);
        }
        self.selected = Some(index);
        self.scroll_len = (rows - 1) * ITEM_HEIGHT;
        self.scroll_position = index * ITEM_HEIGHT;
    }

    /// Selects the row below the selected one among `rows` rows, the first
    /// after the last, and moves the scroll bar there.
    pub fn next(&mut self, rows: usize)
        requires
            rows > 0,
            (rows - 1) * ITEM_HEIGHT <= usize::MAX,
        ensures
            final(self).selected() == Some(next_index(old(self).selected(), rows as int) as usize),
            final(self).scroll_len() == (rows - 1) * ITEM_HEIGHT,
            final(self).scroll_position() == next_index(old(self).selected(), rows as int)
                * ITEM_HEIGHT,
            final(self).color_index() == old(self).color_index(),
            final(self).colors() == old(self).colors(),
            final(self).longest_item_lens() == old(self).longest_item_lens(),
    {
        let index = match self.selected {
            Some(i) => {
                if i >= rows - 1 {
                    0
                } else {
                    i + 1
                }
            },
            None => 0,
        };
        self.place(index, rows);
    }

    /// Selects the row above the selected one among `rows` rows, the last
    /// before the first, and moves the scroll bar there.
    pub fn previous(&mut self, rows: usize)
        requires
            rows > 0,
            (rows - 1) * ITEM_HEIGHT <= usize::MAX,
        ensures
            final(self).selected() == Some(
                previous_index(old(self).selected(), rows as int) as usize,
            ),
            final(self).scroll_len() == (rows - 1) * ITEM_HEIGHT,
            final(self).scroll_position() == previous_index(old(self).selected(), rows as int)
                * ITEM_HEIGHT,
            final(self).color_index() == old(self).color_index(),
            final(self).colors() == old(self).colors(),
            final(self).longest_item_lens() == old(self).longest_item_lens(),
    {
        proof {
            use_type_invariant(&*self);
        }
        let index = match self.selected {
            Some(i) => {
                if i == 0 {
                    rows - 1
                } else {
                    i - 1
                }
            },
            None => 0,
        };
        self.place(index, rows);
    }

    /// Takes the next palette, the first after the last.
    pub fn next_color(&mut self)
        ensures
            final(self).color_index() == (old(self).color_index() + 1) % (PALETTE_COUNT as int),
            final(self).selected() == old(self).selected(),
            final(self).colors() == old(self).colors(),
            final(self).scroll_len() == old(self).scroll_len(),
            final(self).scroll_position() == old(self).scroll_position(),
            final(self).longest_item_lens() == old(self).longest_item_lens(),
    {
        proof {
            use_type_invariant(&*self);
        }
        self.color_index = (self.color_index + 1) % PALETTE_COUNT;
    }

    /// Takes the palette before, the last before the first.
    pub fn previous_color(&mut self)
        ensures
            final(self).color_index() == (old(self).color_index() + PALETTE_COUNT - 1) % (
            PALETTE_COUNT as int),
            final(self).selected() == old(self).selected(),
            final(self).colors() == old(self).colors(),
            final(self).scroll_len() == old(self).scroll_len(),
            final(self).scroll_position() == old(self).scroll_position(),
            final(self).longest_item_lens() == old(self).longest_item_lens(),
    {
        proof {
            use_type_invariant(&*self);
        }
        let count = PALETTE_COUNT;
        self.color_index = (self.color_index + count - 1) % count;
    }

    /// Puts the colours of the palette in use in place.
    pub fn set_colors(&mut self)
        ensures
            final(self).colors() == colors_of(palette_at(old(self).color_index())),
            final(self).color_index() == old(self).color_index(),
            final(self).selected() == old(self).selected(),
            final(self).scroll_len() == old(self).scroll_len(),
            final(self).scroll_position() == old(self).scroll_position(),
            final(self).longest_item_lens() == old(self).longest_item_lens(),
    {
        proof {
            use_type_invariant(&*self);
        }
        self.colors = TableColors::new(palette(self.color_index));
    }

    /// The selected row.
    pub fn selected_row(&self) -> (row: Option<usize>)
        ensures
            row == self.selected(),
    {
        self.selected
    }

    /// The scroll bar: the length of its content and its position.
    pub fn scroll(&self) -> (bar: (usize, usize))
        ensures
            bar.0 == self.scroll_len(),
            bar.1 == self.scroll_position(),
    {
        (self.scroll_len, self.scroll_position)
    }

    /// The widest cell of each column when the table was opened.
    pub fn widths(&self) -> (widths: &Vec<usize>)
        ensures
            widths@ == self.longest_item_lens(),
    {
        &self.longest_item_lens
    }

    /// The colours in use.
    pub fn table_colors(&self) -> (colors: TableColors)
        ensures
            colors == self.colors(),
    {
        self.colors
    }
}

/// The columns that `text` takes on a terminal.
pub uninterp spec fn display_width(text: Seq<char>) -> usize;

/// `UnicodeWidthStr::width` of the crate unicode-width: the number of
/// terminal columns that the string takes, by the rules of that crate. The
/// result depends on the characters of `text` alone; the contract gives it
/// its name and claims no more of it.
#[verifier::external_body]
fn width_of(text: &str) -> (columns: usize)
    ensures
        columns == display_width(text@),
{
    unicode_width::UnicodeWidthStr::width(text)
}

/// The heading of the column `col`.
pub open spec fn head_text(col: int) -> Seq<char> {
    if col == 0 {
        "Project"@
    } else if col == 1 {
        "Cate"@
    } else if col == 2 {
        "Size"@
    } else {
        "Path"@
    }
}

/// The cell of `row` in the column `col`.
pub open spec fn cell_text(row: RowView, col: int) -> Seq<char> {
    if col == 0 {
        row.project
    } else if col == 1 {
        row.cate.ident_name()
    } else if col == 2 {
        size_text(row.size as nat)
    } else {
        debug_text(row.path)
    }
}

/// The width of the widest cell in the column `col`, the heading included.
pub open spec fn column_width(rows: Seq<RowView>, col: int) -> usize
    decreases rows.len(),
{
    if rows.len() == 0 {
        display_width(head_text(col))
    } else {
        let above = column_width(rows.drop_last(), col);
        let here = display_width(cell_text(rows.last(), col));
        if above < here {
            here
        } else {
            above
        }
    }
}

/// The wider of two widths.
pub open spec fn wider(a: usize, b: usize) -> usize {
    if a < b {
        b
    } else {
        a
    }
}

/// Raises each of `widths` to the width of the cell in its column, where the
/// cell is wider.
pub fn widen(widths: &mut Vec<usize>, cells: &Vec<usize>)
    requires
        old(widths)@.len() == cells@.len(),
    ensures
        final(widths)@.len() == cells@.len(),
        forall|col: int|
            0 <= col < cells@.len() ==> final(widths)@[col] == wider(
                #[trigger] old(widths)@[col],
                cells@[col],
            ),
{
    let mut col: usize = 0;
    while col < cells.len()
        invariant
            col <= cells@.len(),
            widths@.len() == cells@.len(),
            forall|c: int| 0 <= c < col ==> widths@[c] == wider(old(widths)@[c], cells@[c]),
            forall|c: int| col <= c < cells@.len() ==> widths@[c] == old(widths)@[c],
        decreases cells.len() - col,
    {
        if widths[col] < cells[col] {
            widths.set(col, cells[col]);
        }
        col += 1;
    }
}

/// The widths of the four cells of one line of the table.
fn cell_widths(a: &str, b: &str, c: &str, d: &str) -> (widths: Vec<usize>)
    ensures
        widths@ == seq![
            display_width(a@),
            display_width(b@),
            display_width(c@),
            display_width(d@),
        ],
{
    let mut widths: Vec<usize> = Vec::new();
    widths.push(width_of(a));
    widths.push(width_of(b));
    widths.push(width_of(c));
    widths.push(width_of(d));
    assert(widths@ =~= seq![
        display_width(a@),
        display_width(b@),
        display_width(c@),
        display_width(d@),
    ]);
    widths
}

/// For each of the four columns, the width of its widest cell, the heading
/// included.
pub fn constraint_len_calculator(rows: &Vec<ScanRow>) -> (widths: Vec<usize>)
    ensures
        widths@.len() == 4,
        forall|col: int| 0 <= col < 4 ==> widths@[col] == #[trigger] column_width(
            row_views(rows@),
            col,
        ),
{
    let head = ScanRow::ref_head();
    let mut widths = cell_widths(head[0], head[1], head[2], head[3]);
    let mut i: usize = 0;
    assert(row_views(rows@).take(0) =~= Seq::<RowView>::empty());
    assert forall|c: int| 0 <= c < 4 implies widths@[c] == #[trigger] column_width(
        row_views(rows@).take(0),
        c,
    ) by {
        assert(widths@[c] == display_width(head_text(c)));
    }
    while i < rows.len()
        invariant
            i <= rows.len(),
            widths@.len() == 4,
            forall|c: int|
                0 <= c < 4 ==> widths@[c] == #[trigger] column_width(
                    row_views(rows@).take(i as int),
                    c,
                ),
        decreases rows.len() - i,
    {
        let cells = rows[i].ref_data();
        let here = cell_widths(
            cells[0].as_str(),
            cells[1].as_str(),
            cells[2].as_str(),
            cells[3].as_str(),
        );
        let ghost upto = row_views(rows@).take(i as int);
        let ghost with = row_views(rows@).take(i + 1);
        let ghost before = widths@;
        widen(&mut widths, &here);
        proof {
            assert(with.drop_last() =~= upto);
            assert(with.last() == rows@[i as int]@);
            assert forall|c: int| 0 <= c < 4 implies widths@[c] == #[trigger] column_width(
                with,
                c,
            ) by {
                assert(before[c] == column_width(upto, c));
                assert(here@[c] == display_width(cell_text(rows@[i as int]@, c)));
                assert(widths@[c] == wider(before[c], here@[c]));
            }
        }
        i += 1;
    }
    assert(row_views(rows@).take(rows@.len() as int) =~= row_views(rows@));
    widths
}

} // verus!
