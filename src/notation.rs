use vstd::prelude::*;
use crate::board::Board;
use crate::piece::{Color, Piece, PieceType};
use crate::text::{chars_of, digit_char, digits, push_decimal, push_str, string_of};

verus! {

/// The characters that `char::is_whitespace` accepts (Unicode `White_Space`).
pub open spec fn is_ws(c: char) -> bool {
    let u = c as u32;
    (9 <= u <= 13) || u == 32 || u == 0x85 || u == 0xA0 || u == 0x1680 || (0x2000 <= u <= 0x200A)
        || u == 0x2028 || u == 0x2029 || u == 0x202F || u == 0x205F || u == 0x3000
}

/// The glyph that stands for a piece.
pub open spec fn glyph(p: Piece) -> char {
    match p {
        Piece(PieceType::Pawn, Color::White) => '\u{2659}',
        Piece(PieceType::Pawn, Color::Black) => '\u{265F}',
        Piece(PieceType::Rook, Color::White) => '\u{2656}',
        Piece(PieceType::Rook, Color::Black) => '\u{265C}',
        Piece(PieceType::Knight, Color::White) => '\u{2658}',
        Piece(PieceType::Knight, Color::Black) => '\u{265E}',
        Piece(PieceType::Bishop, Color::White) => '\u{2657}',
        Piece(PieceType::Bishop, Color::Black) => '\u{265D}',
        Piece(PieceType::Queen, Color::White) => '\u{2655}',
        Piece(PieceType::Queen, Color::Black) => '\u{265B}',
        Piece(PieceType::King, Color::White) => '\u{2654}',
        Piece(PieceType::King, Color::Black) => '\u{265A}',
    }
}

/// The piece a glyph stands for, if any.
pub open spec fn glyph_piece(c: char) -> Option<Piece> {
    if c == '\u{2659}' {
        Some(Piece(PieceType::Pawn, Color::White))
    } else if c == '\u{265F}' {
        Some(Piece(PieceType::Pawn, Color::Black))
    } else if c == '\u{2656}' {
        Some(Piece(PieceType::Rook, Color::White))
    } else if c == '\u{265C}' {
        Some(Piece(PieceType::Rook, Color::Black))
    } else if c == '\u{2658}' {
        Some(Piece(PieceType::Knight, Color::White))
    } else if c == '\u{265E}' {
        Some(Piece(PieceType::Knight, Color::Black))
    } else if c == '\u{2657}' {
        Some(Piece(PieceType::Bishop, Color::White))
    } else if c == '\u{265D}' {
        Some(Piece(PieceType::Bishop, Color::Black))
    } else if c == '\u{2655}' {
        Some(Piece(PieceType::Queen, Color::White))
    } else if c == '\u{265B}' {
        Some(Piece(PieceType::Queen, Color::Black))
    } else if c == '\u{2654}' {
        Some(Piece(PieceType::King, Color::White))
    } else if c == '\u{265A}' {
        Some(Piece(PieceType::King, Color::Black))
    } else {
        None
    }
}

pub open spec fn color_name(c: Color) -> Seq<char> {
    match c {
        Color::White => "White"@,
        Color::Black => "Black"@,
    }
}

pub open spec fn parse_color(l: Seq<char>) -> Option<Color> {
    if l == "White"@ {
        Some(Color::White)
    } else if l == "Black"@ {
        Some(Color::Black)
    } else {
        None
    }
}

// ---- Reading: lines, whitespace-separated tokens, numbers ----

/// The index of the first `'\n'` in `s`, or its length.
pub open spec fn first_newline(s: Seq<char>) -> int
    decreases s.len(),
{
    if s.len() == 0 || s[0] == '\n' {
        0
    } else {
        1 + first_newline(s.drop_first())
    }
}

/// A line ended by `"\r\n"` loses the `'\r'` too.
pub open spec fn chomp(l: Seq<char>) -> Seq<char> {
    if l.len() > 0 && l.last() == '\r' {
        l.drop_last()
    } else {
        l
    }
}

/// The lines of `s` as `str::lines` gives them: split after each `'\n'`, each
/// line without its `'\n'` (or `"\r\n"`), and no empty line after a final `'\n'`.
pub open spec fn lines(s: Seq<char>) -> Seq<Seq<char>>
    decreases s.len(),
{
    if s.len() == 0 {
        Seq::empty()
    } else {
        let n = first_newline(s);
        if 0 <= n < s.len() {
            seq![chomp(s.subrange(0, n))] + lines(s.subrange(n + 1, s.len() as int))
        } else {
            seq![s]
        }
    }
}

/// The index of the first whitespace character of `s`, or its length.
pub open spec fn first_ws(s: Seq<char>) -> int
    decreases s.len(),
{
    if s.len() == 0 || is_ws(s[0]) {
        0
    } else {
        1 + first_ws(s.drop_first())
    }
}

/// The maximal runs of non-whitespace characters of `s`, in order, as
/// `str::split_whitespace` gives them.
pub open spec fn tokens(s: Seq<char>) -> Seq<Seq<char>>
    decreases s.len(),
{
    if s.len() == 0 {
        Seq::empty()
    } else if is_ws(s[0]) {
        tokens(s.drop_first())
    } else {
        let n = first_ws(s);
        if 0 < n <= s.len() {
            seq![s.subrange(0, n)] + tokens(s.subrange(n, s.len() as int))
        } else {
            seq![s]
        }
    }
}

pub open spec fn is_digit(c: char) -> bool {
    48 <= (c as u32) <= 57
}

pub open spec fn digit_value(c: char) -> int {
    (c as u32) - 48
}

/// The value of a string of decimal digits.
pub open spec fn number(ds: Seq<char>) -> int
    decreases ds.len(),
{
    if ds.len() == 0 {
        0
    } else {
        number(ds.drop_last()) * 10 + digit_value(ds.last())
    }
}

pub open spec fn all_digits(ds: Seq<char>) -> bool {
    forall|i: int| 0 <= i < ds.len() ==> is_digit(#[trigger] ds[i])
}

/// A turn number as `u8`'s `FromStr` reads it: an optional `+`, then at least
/// one decimal digit, with a value of at most 255.
pub open spec fn parse_turn(t: Seq<char>) -> Option<u8> {
    let ds = if t.len() > 0 && t[0] == '+' {
        t.drop_first()
    } else {
        t
    };
    if ds.len() > 0 && all_digits(ds) && number(ds) <= 255 {
        Some(number(ds) as u8)
    } else {
        None
    }
}

/// A token stands for a piece when it is exactly one piece glyph.
pub open spec fn token_piece(t: Seq<char>) -> Option<Piece> {
    if t.len() == 1 {
        glyph_piece(t[0])
    } else {
        None
    }
}

/// The piece that a piece's text names, as trimming surrounding whitespace and
/// matching one glyph reads it. A glyph is one character, so this holds exactly
/// when the only character other than whitespace is a glyph.
pub open spec fn piece_of_text(s: Seq<char>) -> Option<Piece> {
    token_piece(s.filter(|c: char| !is_ws(c)))
}

/// What the text `s` puts on row `r`, column `c`: the `c`-th token of the
/// `r`-th line after the two header lines, when there is one.
pub open spec fn parsed_cell(s: Seq<char>, r: int, c: int) -> Option<Piece> {
    let ls = lines(s);
    if 2 + r < ls.len() && c < tokens(ls[2 + r]).len() {
        token_piece(tokens(ls[2 + r])[c])
    } else {
        None
    }
}

/// The number of kings of side `k` that the text puts on the first `n` squares.
pub open spec fn text_kings(s: Seq<char>, k: Color, n: int) -> int
    decreases n,
{
    if n <= 0 {
        0
    } else {
        text_kings(s, k, n - 1) + if parsed_cell(s, (n - 1) / 8, (n - 1) % 8) == Some(
            Piece(PieceType::King, k),
        ) {
            1int
        } else {
            0int
        }
    }
}

/// The number of kings of side `k` on the first `n` squares of `b`.
pub open spec fn board_kings(b: Board, k: Color, n: int) -> int
    decreases n,
{
    if n <= 0 {
        0
    } else {
        board_kings(b, k, n - 1) + if b.at((n - 1) / 8, (n - 1) % 8) == Some(
            Piece(PieceType::King, k),
        ) {
            1int
        } else {
            0int
        }
    }
}

/// Whether the text `s` is a position, and the first thing wrong with it if not.
pub open spec fn text_verdict(s: Seq<char>) -> Result<(), Seq<char>> {
    let ls = lines(s);
    if ls.len() < 1 || parse_color(ls[0]) is None {
        Err("Couldn't parse player!"@)
    } else if ls.len() < 2 || parse_turn(ls[1]) is None {
        Err("Couldn't parse turn number!"@)
    } else if text_kings(s, Color::White, 64) == 1 && text_kings(s, Color::Black, 64) == 1 {
        Ok(())
    } else {
        Err("Wrong number of Kings on the board."@)
    }
}

// ---- Writing ----

pub open spec fn cell_text(p: Option<Piece>) -> Seq<char> {
    match p {
        Some(q) => seq![' ', glyph(q), ' '],
        None => seq![' ', '_', ' '],
    }
}

/// Columns `c..8` of row `r`, three characters each.
pub open spec fn row_text(b: Board, r: int, c: int) -> Seq<char>
    decreases 8 - c,
{
    if c >= 8 {
        Seq::empty()
    } else {
        cell_text(b.at(r, c)) + row_text(b, r, c + 1)
    }
}

/// Rows `r..8`, each followed by `'\n'`.
pub open spec fn rows_text(b: Board, r: int) -> Seq<char>
    decreases 8 - r,
{
    if r >= 8 {
        Seq::empty()
    } else {
        row_text(b, r, 0) + seq!['\n'] + rows_text(b, r + 1)
    }
}

/// The text of a position: the side to move, the turn number, then the eight rows.
pub open spec fn board_text(b: Board) -> Seq<char> {
    color_name(b.to_move()) + seq!['\n'] + digits(b.turn_count() as nat) + seq!['\n'] + rows_text(
        b,
        0,
    )
}

// ---- Reading back what was written ----

pub open spec fn no_newline(l: Seq<char>) -> bool {
    forall|i: int| 0 <= i < l.len() ==> #[trigger] l[i] != '\n'
}

/// The token a cell is written as.
pub open spec fn token_of(p: Option<Piece>) -> Seq<char> {
    match p {
        Some(q) => seq![glyph(q)],
        None => seq!['_'],
    }
}

proof fn lemma_first_newline_prefix(l: Seq<char>, rest: Seq<char>)
    requires
        no_newline(l),
    ensures
        first_newline(l + seq!['\n'] + rest) == l.len(),
    decreases l.len(),
{
    let s = l + seq!['\n'] + rest;
    if l.len() > 0 {
        assert(s.drop_first() =~= l.drop_first() + seq!['\n'] + rest);
        assert(l[0] != '\n');
        lemma_first_newline_prefix(l.drop_first(), rest);
    } else {
        assert(s[0] == '\n');
    }
}

/// A line without `'\n'` that does not end in `'\r'`, followed by `'\n'`, is read back whole.
proof fn lemma_lines_cons(l: Seq<char>, rest: Seq<char>)
    requires
        no_newline(l),
        l.len() == 0 || l.last() != '\r',
    ensures
        lines(l + seq!['\n'] + rest) == seq![l] + lines(rest),
{
    let s = l + seq!['\n'] + rest;
    lemma_first_newline_prefix(l, rest);
    assert(s.subrange(0, l.len() as int) =~= l);
    assert(s.subrange(l.len() as int + 1, s.len() as int) =~= rest);
}

proof fn lemma_row_text_shape(b: Board, r: int, c: int)
    requires
        0 <= c <= 8,
    ensures
        row_text(b, r, c).len() == 3 * (8 - c),
        no_newline(row_text(b, r, c)),
        c < 8 ==> row_text(b, r, c).last() == ' ',
    decreases 8 - c,
{
    if c < 8 {
        lemma_row_text_shape(b, r, c + 1);
        let t = row_text(b, r, c);
        let head = cell_text(b.at(r, c));
        let tail = row_text(b, r, c + 1);
        assert(t == head + tail);
        assert forall|i: int| 0 <= i < t.len() implies #[trigger] t[i] != '\n' by {
            if i < 3 {
                assert(t[i] == head[i]);
            } else {
                assert(t[i] == tail[i - 3]);
            }
        }
    }
}

proof fn lemma_rows_lines(b: Board, r: int)
    requires
        0 <= r <= 8,
    ensures
        lines(rows_text(b, r)) == Seq::new((8 - r) as nat, |j: int| row_text(b, r + j, 0)),
    decreases 8 - r,
{
    if r < 8 {
        lemma_rows_lines(b, r + 1);
        lemma_row_text_shape(b, r, 0);
        lemma_lines_cons(row_text(b, r, 0), rows_text(b, r + 1));
        assert(lines(rows_text(b, r)) =~= Seq::new((8 - r) as nat, |j: int| row_text(b, r + j, 0)));
    } else {
        assert(lines(rows_text(b, r)) =~= Seq::new((8 - r) as nat, |j: int| row_text(b, r + j, 0)));
    }
}

proof fn lemma_row_tokens(b: Board, r: int, c: int)
    requires
        0 <= c <= 8,
    ensures
        tokens(row_text(b, r, c)) == Seq::new((8 - c) as nat, |j: int| token_of(b.at(r, c + j))),
    decreases 8 - c,
{
    if c < 8 {
        lemma_row_tokens(b, r, c + 1);
        let rest = row_text(b, r, c + 1);
        let g = token_of(b.at(r, c))[0];
        let s = row_text(b, r, c);
        assert(s =~= seq![' ', g, ' '] + rest);
        assert(!is_ws(g));
        let s1 = s.drop_first();
        assert(s1 =~= seq![g, ' '] + rest);
        assert(s1.drop_first() =~= seq![' '] + rest);
        assert(first_ws(s1.drop_first()) == 0);
        assert(first_ws(s1) == 1);
        assert(s1.subrange(0, 1) =~= token_of(b.at(r, c)));
        let s2 = s1.subrange(1, s1.len() as int);
        assert(s2 =~= seq![' '] + rest);
        assert(s2.drop_first() =~= rest);
        assert(tokens(s2) == tokens(rest));
        assert(is_ws(s[0]));
        assert(tokens(s) == tokens(s1));
        assert(tokens(s1) == seq![s1.subrange(0, 1)] + tokens(s2));
        assert(tokens(s) == seq![token_of(b.at(r, c))] + tokens(rest));
        assert(tokens(s) =~= Seq::new((8 - c) as nat, |j: int| token_of(b.at(r, c + j))));
    } else {
        assert(tokens(row_text(b, r, c)) =~= Seq::new((8 - c) as nat, |j: int| token_of(b.at(r, c + j))));
    }
}

proof fn lemma_token_piece(p: Option<Piece>)
    ensures
        token_piece(token_of(p)) == p,
{
}

proof fn lemma_digit_value(d: int)
    requires
        0 <= d < 10,
    ensures
        is_digit(digit_char(d)),
        digit_value(digit_char(d)) == d,
{
    assert('0' as u32 == 48);
    assert('9' as u32 == 57);
}

proof fn lemma_digits(n: nat)
    ensures
        digits(n).len() >= 1,
        all_digits(digits(n)),
        number(digits(n)) == n,
    decreases n,
{
    let d = digits(n);
    lemma_digit_value((n % 10) as int);
    if n < 10 {
        lemma_digit_value(n as int);
        assert(d.drop_last() =~= Seq::<char>::empty());
        assert(d.last() == digit_char(n as int));
        assert(number(d) == number(d.drop_last()) * 10 + digit_value(d.last()));
    } else {
        lemma_digits(n / 10);
        assert(d.drop_last() =~= digits(n / 10));
        assert(d.last() == digit_char((n % 10) as int));
        assert(number(d) == number(d.drop_last()) * 10 + digit_value(d.last()));
        assert(n == (n / 10) * 10 + n % 10);
    }
    assert forall|i: int| 0 <= i < d.len() implies is_digit(#[trigger] d[i]) by {
        if n >= 10 && i < d.len() - 1 {
            assert(d[i] == digits(n / 10)[i]);
        }
    }
}

proof fn lemma_parse_turn(n: u8)
    ensures
        parse_turn(digits(n as nat)) == Some(n),
        no_newline(digits(n as nat)),
        digits(n as nat).last() != '\r',
{
    lemma_digits(n as nat);
    let d = digits(n as nat);
    assert(is_digit(d[0]));
    assert forall|i: int| 0 <= i < d.len() implies #[trigger] d[i] != '\n' by {
        assert(is_digit(d[i]));
    }
    assert(is_digit(d[d.len() - 1]));
}

proof fn lemma_color_name(c: Color)
    ensures
        parse_color(color_name(c)) == Some(c),
        no_newline(color_name(c)),
        color_name(c).last() != '\r',
{
    reveal_strlit("White");
    reveal_strlit("Black");
    assert("White"@[0] != "Black"@[0]);
    assert("White"@ != "Black"@);
}

proof fn lemma_kings_agree(s: Seq<char>, b: Board, k: Color, n: int)
    requires
        0 <= n <= 64,
        forall|r: int, c: int| 0 <= r < 8 && 0 <= c < 8 ==> #[trigger] parsed_cell(s, r, c) == b.at(r, c),
    ensures
        text_kings(s, k, n) == board_kings(b, k, n),
    decreases n,
{
    if n > 0 {
        lemma_kings_agree(s, b, k, n - 1);
        assert(parsed_cell(s, (n - 1) / 8, (n - 1) % 8) == b.at((n - 1) / 8, (n - 1) % 8));
    }
}

/// Reading back the text of a position that has exactly one king of each side
/// succeeds and gives the same side to move, turn number and pieces.
pub proof fn lemma_round_trip(b: Board)
    requires
        board_kings(b, Color::White, 64) == 1,
        board_kings(b, Color::Black, 64) == 1,
    ensures
        text_verdict(board_text(b)) is Ok,
        parse_color(lines(board_text(b))[0]) == Some(b.to_move()),
        parse_turn(lines(board_text(b))[1]) == Some(b.turn_count()),
        forall|r: int, c: int|
            0 <= r < 8 && 0 <= c < 8 ==> #[trigger] parsed_cell(board_text(b), r, c) == b.at(r, c),
{
    let s = board_text(b);
    let name = color_name(b.to_move());
    let num = digits(b.turn_count() as nat);
    let rows = rows_text(b, 0);
    lemma_color_name(b.to_move());
    lemma_parse_turn(b.turn_count());
    lemma_rows_lines(b, 0);
    assert(s =~= name + seq!['\n'] + (num + seq!['\n'] + rows));
    lemma_lines_cons(name, num + seq!['\n'] + rows);
    lemma_lines_cons(num, rows);
    let ls = lines(s);
    assert(ls =~= seq![name, num] + Seq::new(8, |j: int| row_text(b, j, 0)));
    assert forall|r: int, c: int| 0 <= r < 8 && 0 <= c < 8 implies #[trigger] parsed_cell(s, r, c) == b.at(r, c) by {
        assert(ls[2 + r] == row_text(b, r, 0));
        lemma_row_tokens(b, r, 0);
        lemma_token_piece(b.at(r, c));
    }
    lemma_kings_agree(s, b, Color::White, 64);
    lemma_kings_agree(s, b, Color::Black, 64);
}

// ---- Executable reading and writing ----

proof fn lemma_first_newline_at(s: Seq<char>, j: int)
    requires
        0 <= j <= s.len(),
        forall|k: int| 0 <= k < j ==> #[trigger] s[k] != '\n',
        j == s.len() || s[j] == '\n',
    ensures
        first_newline(s) == j,
    decreases j,
{
    if j > 0 {
        let t = s.drop_first();
        assert forall|k: int| 0 <= k < j - 1 implies #[trigger] t[k] != '\n' by {
            assert(t[k] == s[k + 1]);
        }
        lemma_first_newline_at(t, j - 1);
    }
}

proof fn lemma_first_ws_at(s: Seq<char>, j: int)
    requires
        0 <= j <= s.len(),
        forall|k: int| 0 <= k < j ==> !is_ws(#[trigger] s[k]),
        j == s.len() || is_ws(s[j]),
    ensures
        first_ws(s) == j,
    decreases j,
{
    if j > 0 {
        let t = s.drop_first();
        assert forall|k: int| 0 <= k < j - 1 implies !is_ws(#[trigger] t[k]) by {
            assert(t[k] == s[k + 1]);
        }
        lemma_first_ws_at(t, j - 1);
    }
}

proof fn lemma_number_prefix(ds: Seq<char>, i: int)
    requires
        all_digits(ds),
        0 <= i <= ds.len(),
    ensures
        0 <= number(ds.subrange(0, i)) <= number(ds),
    decreases ds.len(),
{
    if i < ds.len() {
        let d = ds.drop_last();
        assert(all_digits(d)) by {
            assert forall|k: int| 0 <= k < d.len() implies is_digit(#[trigger] d[k]) by {
                assert(d[k] == ds[k]);
            }
        }
        lemma_number_prefix(d, i);
        assert(d.subrange(0, i) =~= ds.subrange(0, i));
        lemma_number_prefix(d, d.len() as int);
        assert(d.subrange(0, d.len() as int) =~= d);
        assert(is_digit(ds[ds.len() - 1]));
    } else {
        assert(ds.subrange(0, i) =~= ds);
        if ds.len() > 0 {
            let d = ds.drop_last();
            assert(all_digits(d)) by {
                assert forall|k: int| 0 <= k < d.len() implies is_digit(#[trigger] d[k]) by {
                    assert(d[k] == ds[k]);
                }
            }
            lemma_number_prefix(d, d.len() as int);
            assert(d.subrange(0, d.len() as int) =~= d);
            assert(is_digit(ds[ds.len() - 1]));
        }
    }
}

fn is_ws_exec(c: char) -> (r: bool)
    ensures
        r == is_ws(c),
{
    let u = c as u32;
    (9 <= u && u <= 13) || u == 32 || u == 0x85 || u == 0xA0 || u == 0x1680 || (0x2000 <= u && u
        <= 0x200A) || u == 0x2028 || u == 0x2029 || u == 0x202F || u == 0x205F || u == 0x3000
}

fn copy_range(s: &Vec<char>, a: usize, e: usize) -> (r: Vec<char>)
    requires
        a <= e <= s.len(),
    ensures
        r@ == s@.subrange(a as int, e as int),
{
    let mut out: Vec<char> = Vec::new();
    let mut i: usize = a;
    while i < e
        invariant
            a <= i <= e <= s.len(),
            out@ == s@.subrange(a as int, i as int),
        decreases e - i,
    {
        out.push(s[i]);
        assert(out@ =~= s@.subrange(a as int, i + 1));
        i = i + 1;
    }
    out
}

fn same_text(l: &Vec<char>, w: &str) -> (r: bool)
    ensures
        r == (l@ == w@),
{
    let wc = chars_of(w);
    if l.len() != wc.len() {
        return false;
    }
    let mut i: usize = 0;
    while i < l.len()
        invariant
            l.len() == wc.len(),
            wc@ == w@,
            i <= l.len(),
            forall|k: int| 0 <= k < i ==> l@[k] == wc@[k],
        decreases l.len() - i,
    {
        if l[i] != wc[i] {
            return false;
        }
        i = i + 1;
    }
    assert(l@ =~= wc@);
    true
}

/// The next line of `s` from `start`, and where the line after it begins.
fn next_line(s: &Vec<char>, start: usize) -> (r: Option<(Vec<char>, usize)>)
    requires
        start <= s.len(),
    ensures
        match r {
            None => lines(s@.subrange(start as int, s.len() as int)).len() == 0,
            Some((l, next)) => start < next <= s.len() && lines(
                s@.subrange(start as int, s.len() as int),
            ) == seq![l@] + lines(s@.subrange(next as int, s.len() as int)),
        },
{
    let ghost t = s@.subrange(start as int, s.len() as int);
    if start == s.len() {
        return None;
    }
    let mut j: usize = start;
    while j < s.len() && s[j] != '\n'
        invariant
            start <= j <= s.len(),
            forall|k: int| start <= k < j ==> #[trigger] s@[k] != '\n',
        decreases s.len() - j,
    {
        j = j + 1;
    }
    proof {
        assert forall|k: int| 0 <= k < j - start implies #[trigger] t[k] != '\n' by {
            assert(t[k] == s@[start + k]);
        }
        lemma_first_newline_at(t, j - start);
    }
    let mut line = copy_range(s, start, j);
    if j == s.len() {
        assert(s@.subrange(j as int, s.len() as int) =~= Seq::<char>::empty());
        assert(line@ =~= t);
        assert(lines(t) =~= seq![line@] + lines(s@.subrange(j as int, s.len() as int)));
        Some((line, j))
    } else {
        assert(t.subrange(0, j - start) =~= line@);
        assert(t.subrange(j - start + 1, t.len() as int) =~= s@.subrange(j + 1, s.len() as int));
        if line.len() > 0 && line[line.len() - 1] == '\r' {
            line.pop();
        }
        Some((line, j + 1))
    }
}

/// The next token of `s` from `start`, as the range it occupies.
fn next_token(s: &Vec<char>, start: usize) -> (r: Option<(usize, usize)>)
    requires
        start <= s.len(),
    ensures
        match r {
            None => tokens(s@.subrange(start as int, s.len() as int)).len() == 0,
            Some((a, e)) => start <= a < e <= s.len() && tokens(
                s@.subrange(start as int, s.len() as int),
            ) == seq![s@.subrange(a as int, e as int)] + tokens(
                s@.subrange(e as int, s.len() as int),
            ),
        },
{
    let mut a: usize = start;
    while a < s.len() && is_ws_exec(s[a])
        invariant
            start <= a <= s.len(),
            tokens(s@.subrange(start as int, s.len() as int)) == tokens(
                s@.subrange(a as int, s.len() as int),
            ),
        decreases s.len() - a,
    {
        let ghost t = s@.subrange(a as int, s.len() as int);
        assert(t.drop_first() =~= s@.subrange(a + 1, s.len() as int));
        a = a + 1;
    }
    if a == s.len() {
        assert(s@.subrange(a as int, s.len() as int) =~= Seq::<char>::empty());
        return None;
    }
    let mut e: usize = a;
    while e < s.len() && !is_ws_exec(s[e])
        invariant
            a <= e <= s.len(),
            forall|k: int| a <= k < e ==> !is_ws(#[trigger] s@[k]),
        decreases s.len() - e,
    {
        e = e + 1;
    }
    let ghost t = s@.subrange(a as int, s.len() as int);
    proof {
        assert forall|k: int| 0 <= k < e - a implies !is_ws(#[trigger] t[k]) by {
            assert(t[k] == s@[a + k]);
        }
        lemma_first_ws_at(t, e - a);
        assert(t.subrange(0, e - a) =~= s@.subrange(a as int, e as int));
        assert(t.subrange(e - a, t.len() as int) =~= s@.subrange(e as int, s.len() as int));
    }
    Some((a, e))
}

#[verifier::loop_isolation(false)]
fn parse_turn_exec(t: &Vec<char>) -> (r: Option<u8>)
    ensures
        r == parse_turn(t@),
{
    let start: usize = if t.len() > 0 && t[0] == '+' {
        1
    } else {
        0
    };
    let ghost ds = t@.subrange(start as int, t.len() as int);
    assert(ds =~= if t@.len() > 0 && t@[0] == '+' {
        t@.drop_first()
    } else {
        t@
    });
    if start == t.len() {
        return None;
    }
    let mut acc: u64 = 0;
    let mut i: usize = start;
    assert(t@.subrange(start as int, start as int) =~= Seq::<char>::empty());
    while i < t.len()
        invariant
            start <= i <= t.len(),
            ds == t@.subrange(start as int, t.len() as int),
            forall|k: int| start <= k < i ==> is_digit(#[trigger] t@[k]),
            acc == number(t@.subrange(start as int, i as int)),
            acc <= 255,
        decreases t.len() - i,
    {
        let c = t[i];
        let u = c as u32;
        if u < 48 || u > 57 {
            assert(!is_digit(ds[i - start]));
            return None;
        }
        let ghost pre = t@.subrange(start as int, i + 1);
        assert(pre.drop_last() =~= t@.subrange(start as int, i as int));
        acc = acc * 10 + (u - 48) as u64;
        if acc > 255 {
            proof {
                if all_digits(ds) {
                    lemma_number_prefix(ds, i + 1 - start);
                    assert(ds.subrange(0, i + 1 - start) =~= pre);
                }
            }
            return None;
        }
        i = i + 1;
    }
    assert(t@.subrange(start as int, i as int) =~= ds);
    Some(acc as u8)
}

fn count_kings(b: &Board, k: Color) -> (r: usize)
    ensures
        r == board_kings(*b, k, 64),
{
    let mut n: usize = 0;
    let mut i: isize = 0;
    while i < 64
        invariant
            0 <= i <= 64,
            n <= i,
            n == board_kings(*b, k, i as int),
        decreases 64 - i,
    {
        match b.get((i / 8, i % 8)) {
            Some(Piece(PieceType::King, c)) => {
                if c == k {
                    n = n + 1;
                }
            },
            _ => {},
        }
        i = i + 1;
    }
    n
}

/// The cells of row `row` that a line of text gives: its `j`-th token on column `j`.
fn fill_row(b: &mut Board, row: usize, line: &Vec<char>)
    requires
        row < 8,
    ensures
        final(b).to_move() == old(b).to_move(),
        final(b).turn_count() == old(b).turn_count(),
        forall|i: int, j: int|
            0 <= i < 8 && 0 <= j < 8 ==> #[trigger] final(b).at(i, j) == if i == row && j < tokens(
                line@,
            ).len() {
                token_piece(tokens(line@)[j])
            } else {
                old(b).at(i, j)
            },
{
    let ghost start = *b;
    let ghost all = tokens(line@);
    let ghost mut seen: Seq<Seq<char>> = Seq::empty();
    let mut pos: usize = 0;
    let mut col: usize = 0;
    let mut done = false;
    assert(line@.subrange(0, line@.len() as int) =~= line@);
    while col < 8 && !done
        invariant
            row < 8,
            pos <= line.len(),
            col <= 8,
            seen.len() == col,
            all == tokens(line@),
            all == seen + tokens(line@.subrange(pos as int, line@.len() as int)),
            done ==> tokens(line@.subrange(pos as int, line@.len() as int)).len() == 0,
            b.to_move() == start.to_move(),
            b.turn_count() == start.turn_count(),
            forall|i: int, j: int|
                0 <= i < 8 && 0 <= j < 8 ==> #[trigger] b.at(i, j) == if i == row && j < col {
                    token_piece(seen[j])
                } else {
                    start.at(i, j)
                },
        decreases 2 * (8 - col) + if done {
            0int
        } else {
            1int
        },
    {
        match next_token(line, pos) {
            None => {
                done = true;
            },
            Some((a, e)) => {
                let piece = if e - a == 1 {
                    Piece::from_glyph(line[a])
                } else {
                    None
                };
                let ghost tok = line@.subrange(a as int, e as int);
                assert(piece == token_piece(tok));
                b.set((row as isize, col as isize), piece);
                proof {
                    seen = seen.push(tok);
                    assert(all =~= seen + tokens(line@.subrange(e as int, line@.len() as int)));
                }
                pos = e;
                col = col + 1;
            },
        }
    }
    proof {
        assert forall|j: int| 0 <= j < col implies #[trigger] all[j] == seen[j] by {}
        if !done {
            assert(all.len() >= 8);
        }
    }
}

impl Piece {
    /// The glyph that stands for this piece in text.
    pub fn glyph(&self) -> (r: char)
        ensures
            r == glyph(*self),
    {
        match self {
            Piece(PieceType::Pawn, Color::White) => '\u{2659}',
            Piece(PieceType::Pawn, Color::Black) => '\u{265F}',
            Piece(PieceType::Rook, Color::White) => '\u{2656}',
            Piece(PieceType::Rook, Color::Black) => '\u{265C}',
            Piece(PieceType::Knight, Color::White) => '\u{2658}',
            Piece(PieceType::Knight, Color::Black) => '\u{265E}',
            Piece(PieceType::Bishop, Color::White) => '\u{2657}',
            Piece(PieceType::Bishop, Color::Black) => '\u{265D}',
            Piece(PieceType::Queen, Color::White) => '\u{2655}',
            Piece(PieceType::Queen, Color::Black) => '\u{265B}',
            Piece(PieceType::King, Color::White) => '\u{2654}',
            Piece(PieceType::King, Color::Black) => '\u{265A}',
        }
    }

    /// The piece a glyph stands for, if any.
    pub fn from_glyph(c: char) -> (r: Option<Piece>)
        ensures
            r == glyph_piece(c),
    {
        if c == '\u{2659}' {
            Some(Piece(PieceType::Pawn, Color::White))
        } else if c == '\u{265F}' {
            Some(Piece(PieceType::Pawn, Color::Black))
        } else if c == '\u{2656}' {
            Some(Piece(PieceType::Rook, Color::White))
        } else if c == '\u{265C}' {
            Some(Piece(PieceType::Rook, Color::Black))
        } else if c == '\u{2658}' {
            Some(Piece(PieceType::Knight, Color::White))
        } else if c == '\u{265E}' {
            Some(Piece(PieceType::Knight, Color::Black))
        } else if c == '\u{2657}' {
            Some(Piece(PieceType::Bishop, Color::White))
        } else if c == '\u{265D}' {
            Some(Piece(PieceType::Bishop, Color::Black))
        } else if c == '\u{2655}' {
            Some(Piece(PieceType::Queen, Color::White))
        } else if c == '\u{265B}' {
            Some(Piece(PieceType::Queen, Color::Black))
        } else if c == '\u{2654}' {
            Some(Piece(PieceType::King, Color::White))
        } else if c == '\u{265A}' {
            Some(Piece(PieceType::King, Color::Black))
        } else {
            None
        }
    }
}

impl Piece {
    /// Reads a piece written as its glyph, with whitespace around it allowed.
    pub fn from_token(s: &str) -> (r: Result<Piece, String>)
        ensures
            match r {
                Ok(p) => piece_of_text(s@) == Some(p),
                Err(e) => piece_of_text(s@) is None && e@ == "Not a recognized piece"@,
            },
    {
        let chars = chars_of(s);
        let mut solid: Vec<char> = Vec::new();
        let mut i: usize = 0;
        while i < chars.len()
            invariant
                chars@ == s@,
                i <= chars.len(),
                solid@ == chars@.subrange(0, i as int).filter(|c: char| !is_ws(c)),
            decreases chars.len() - i,
        {
            let c = chars[i];
            proof {
                let pre = chars@.subrange(0, i + 1);
                reveal(Seq::filter);
                assert(pre.drop_last() =~= chars@.subrange(0, i as int));
                assert(pre.last() == c);
            }
            if !is_ws_exec(c) {
                solid.push(c);
            }
            proof {
                let pre = chars@.subrange(0, i + 1);
                reveal(Seq::filter);
                assert(solid@ =~= pre.filter(|c: char| !is_ws(c)));
            }
            i = i + 1;
        }
        assert(chars@.subrange(0, chars@.len() as int) =~= s@);
        let found = if solid.len() == 1 {
            Piece::from_glyph(solid[0])
        } else {
            None
        };
        match found {
            Some(p) => Ok(p),
            None => Err("Not a recognized piece".to_owned()),
        }
    }
}

impl std::str::FromStr for Piece {
    type Err = String;

    /// Same as `Piece::from_token`.
    fn from_str(s: &str) -> Result<Piece, String> {
        Piece::from_token(s)
    }
}

impl std::str::FromStr for Board {
    type Err = String;

    /// Same as `Board::from_text`.
    fn from_str(s: &str) -> Result<Board, String> {
        Board::from_text(s)
    }
}

impl Color {
    /// `"White"` or `"Black"`.
    pub fn name(&self) -> (r: String)
        ensures
            r@ == color_name(*self),
    {
        match self {
            Color::White => "White".to_owned(),
            Color::Black => "Black".to_owned(),
        }
    }
}

impl Board {
    /// The position as text: the side to move, the turn number, then one line
    /// per row with each cell written as its glyph (or `_`) between spaces.
    pub fn to_text(&self) -> (r: String)
        ensures
            r@ == board_text(*self),
    {
        let mut out: Vec<char> = Vec::new();
        match self.player() {
            Color::White => push_str(&mut out, "White"),
            Color::Black => push_str(&mut out, "Black"),
        }
        out.push('\n');
        push_decimal(&mut out, self.turn() as i128);
        out.push('\n');
        assert(out@ + rows_text(*self, 0) =~= board_text(*self));
        let mut r: usize = 0;
        while r < 8
            invariant
                r <= 8,
                out@ + rows_text(*self, r as int) == board_text(*self),
            decreases 8 - r,
        {
            let ghost before = out@;
            let mut c: usize = 0;
            assert(before + row_text(*self, r as int, 0) =~= out@ + row_text(*self, r as int, 0));
            while c < 8
                invariant
                    c <= 8,
                    r < 8,
                    out@ + row_text(*self, r as int, c as int) == before + row_text(*self, r as int, 0),
                decreases 8 - c,
            {
                let ghost old_out = out@;
                out.push(' ');
                match self.get((r as isize, c as isize)) {
                    Some(p) => out.push(p.glyph()),
                    None => out.push('_'),
                }
                out.push(' ');
                assert(out@ =~= old_out + cell_text(self.at(r as int, c as int)));
                assert(out@ + row_text(*self, r as int, c + 1) =~= old_out + row_text(*self, r as int, c as int));
                c = c + 1;
            }
            assert(row_text(*self, r as int, 8) =~= Seq::<char>::empty());
            out.push('\n');
            assert(out@ + rows_text(*self, r + 1) =~= before + rows_text(*self, r as int));
            r = r + 1;
        }
        assert(rows_text(*self, 8) =~= Seq::<char>::empty());
        assert(out@ =~= board_text(*self));
        string_of(&out)
    }

    /// Reads a position written as `to_text` writes it. Lines after the eighth
    /// row, and tokens after the eighth of a row, are ignored; a missing or
    /// unrecognized cell is empty. The text must hold exactly one king of each side.
    #[verifier::loop_isolation(false)]
    pub fn from_text(text: &str) -> (r: Result<Board, String>)
        ensures
            match r {
                Ok(b) => {
                    &&& text_verdict(text@) is Ok
                    &&& b.to_move() == parse_color(lines(text@)[0]).unwrap()
                    &&& b.turn_count() == parse_turn(lines(text@)[1]).unwrap()
                    &&& forall|i: int, j: int|
                        0 <= i < 8 && 0 <= j < 8 ==> #[trigger] b.at(i, j) == parsed_cell(text@, i, j)
                },
                Err(e) => text_verdict(text@) == Err::<(), Seq<char>>(e@),
            },
    {
        let s = chars_of(text);
        assert(s@.subrange(0, s@.len() as int) =~= s@);
        let (first, p1) = match next_line(&s, 0) {
            None => return Err("Couldn't parse player!".to_owned()),
            Some(x) => x,
        };
        let player = if same_text(&first, "White") {
            Color::White
        } else if same_text(&first, "Black") {
            Color::Black
        } else {
            return Err("Couldn't parse player!".to_owned());
        };
        let (second, p2) = match next_line(&s, p1) {
            None => return Err("Couldn't parse turn number!".to_owned()),
            Some(x) => x,
        };
        let turn_no = match parse_turn_exec(&second) {
            None => return Err("Couldn't parse turn number!".to_owned()),
            Some(t) => t,
        };
        let mut b = Board::empty(player, turn_no);
        let ghost all = lines(s@);
        let ghost mut seen: Seq<Seq<char>> = seq![first@, second@];
        assert(all =~= seen + lines(s@.subrange(p2 as int, s@.len() as int)));
        let mut pos: usize = p2;
        let mut row: usize = 0;
        let mut done = false;
        while row < 8 && !done
            invariant
                pos <= s.len(),
                row <= 8,
                all == lines(s@),
                all == seen + lines(s@.subrange(pos as int, s@.len() as int)),
                seen.len() == 2 + row,
                done ==> lines(s@.subrange(pos as int, s@.len() as int)).len() == 0,
                b.to_move() == player,
                b.turn_count() == turn_no,
                forall|i: int, j: int|
                    0 <= i < 8 && 0 <= j < 8 ==> #[trigger] b.at(i, j) == if i < row {
                        parsed_cell(s@, i, j)
                    } else {
                        None
                    },
            decreases 2 * (8 - row) + if done {
                0int
            } else {
                1int
            },
        {
            match next_line(&s, pos) {
                None => {
                    done = true;
                },
                Some((line, next)) => {
                    fill_row(&mut b, row, &line);
                    proof {
                        seen = seen.push(line@);
                        assert(all =~= seen + lines(s@.subrange(next as int, s@.len() as int)));
                        assert(all[2 + row] == line@);
                    }
                    pos = next;
                    row = row + 1;
                },
            }
        }
        let white = count_kings(&b, Color::White);
        let black = count_kings(&b, Color::Black);
        proof {
            assert forall|i: int, j: int| 0 <= i < 8 && 0 <= j < 8 implies #[trigger] parsed_cell(s@, i, j) == b.at(i, j) by {
                if i >= row {
                    assert(all.len() == seen.len());
                }
            }
            lemma_kings_agree(s@, b, Color::White, 64);
            lemma_kings_agree(s@, b, Color::Black, 64);
        }
        if white == 1 && black == 1 {
            Ok(b)
        } else {
            Err("Wrong number of Kings on the board.".to_owned())
        }
    }
}

} // verus!
