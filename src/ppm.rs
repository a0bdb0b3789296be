//! The plain-text PPM image format: display channels, the header, and the
//! body lines of one row, wrapped so that no line is longer than
//! `MAX_LINE_WIDTH` characters.
use vstd::prelude::*;
use vstd::string::{StrSliceExecFns, StringExecFns};

use crate::text::{decimal, decimal_string, digit_char, push_decimal};

verus! {

/// The longest body line, newline not counted.
pub const MAX_LINE_WIDTH: usize = 70;

/// The largest display channel value.
pub const MAX_CHANNEL: u8 = 255;

/// A color as it is shown: red, green and blue as integers in `0..=255`.
#[derive(Clone, Copy, Debug, PartialEq, Eq, Structural)]
pub struct DisplayColor {
    pub red: u8,
    pub green: u8,
    pub blue: u8,
}

impl DisplayColor {
    pub fn new(red: u8, green: u8, blue: u8) -> (r: DisplayColor)
        ensures
            r == (DisplayColor { red, green, blue }),
    {
        DisplayColor { red, green, blue }
    }

    /// The displayed color of channel intensities already scaled by 255 and
    /// rounded to the nearest integer: each one clamped into `0..=255`.
    pub fn from_rounded(red: i64, green: i64, blue: i64) -> (r: DisplayColor)
        ensures
            r.red as int == clamp_channel_spec(red as int),
            r.green as int == clamp_channel_spec(green as int),
            r.blue as int == clamp_channel_spec(blue as int),
    {
        DisplayColor { red: clamp_channel(red), green: clamp_channel(green), blue: clamp_channel(blue) }
    }
}

/// `n` clamped into `0..=255`.
pub open spec fn clamp_channel_spec(n: int) -> int {
    if n < 0 {
        0
    } else if n > MAX_CHANNEL as int {
        MAX_CHANNEL as int
    } else {
        n
    }
}

/// Clamps a channel intensity, already scaled by 255 and rounded to the
/// nearest integer, into the displayable range `0..=255`. Values out of range
/// are clamped, never rejected.
pub fn clamp_channel(n: i64) -> (r: u8)
    ensures
        r as int == clamp_channel_spec(n as int),
{
    if n < 0 {
        0
    } else if n > MAX_CHANNEL as i64 {
        MAX_CHANNEL
    } else {
        n as u8
    }
}

/// The red, green and blue channels of each pixel of `row`, in pixel order.
pub open spec fn row_channels(row: Seq<DisplayColor>) -> Seq<u8>
    decreases row.len(),
{
    if row.len() == 0 {
        seq![]
    } else {
        let p = row.last();
        row_channels(row.drop_last()) + seq![p.red, p.green, p.blue]
    }
}

/// The decimal token of each channel value.
pub open spec fn channel_tokens(vals: Seq<u8>) -> Seq<Seq<char>> {
    vals.map_values(|v: u8| decimal(v as nat))
}

/// The tokens joined by single spaces.
pub open spec fn join_spaced(toks: Seq<Seq<char>>) -> Seq<char>
    decreases toks.len(),
{
    if toks.len() == 0 {
        seq![]
    } else if toks.len() == 1 {
        toks[0]
    } else {
        join_spaced(toks.drop_last()).push(' ') + toks.last()
    }
}

/// Greedy packing of the tokens into lines. A token goes on the last line,
/// after a space, unless that would make the line longer than
/// `MAX_LINE_WIDTH`; then it starts a new line.
pub open spec fn pack_lines(toks: Seq<Seq<char>>) -> Seq<Seq<char>>
    decreases toks.len(),
{
    if toks.len() <= 1 {
        toks
    } else {
        let lines = pack_lines(toks.drop_last());
        let open = lines.last();
        let t = toks.last();
        if open.len() + 1 + t.len() > MAX_LINE_WIDTH {
            lines.push(t)
        } else {
            lines.update(lines.len() - 1, open.push(' ') + t)
        }
    }
}

/// The lines, each followed by a newline.
pub open spec fn lines_text(lines: Seq<Seq<char>>) -> Seq<char>
    decreases lines.len(),
{
    if lines.len() == 0 {
        seq![]
    } else {
        lines_text(lines.drop_last()) + lines.last().push('\n')
    }
}

/// The lines of one row, given its channel values: the tokens joined by
/// spaces as one line if that line fits, else the tokens packed greedily.
pub open spec fn row_lines(vals: Seq<u8>) -> Seq<Seq<char>> {
    let toks = channel_tokens(vals);
    let joined = join_spaced(toks);
    if joined.len() <= MAX_LINE_WIDTH {
        seq![joined]
    } else {
        pack_lines(toks)
    }
}

/// The body text of one row: its lines, each ended by a newline.
pub open spec fn row_text(vals: Seq<u8>) -> Seq<char> {
    lines_text(row_lines(vals))
}

/// The body text: the text of each row, top row first.
pub open spec fn body_text(rows: Seq<Seq<DisplayColor>>) -> Seq<char>
    decreases rows.len(),
{
    if rows.len() == 0 {
        seq![]
    } else {
        body_text(rows.drop_last()) + row_text(row_channels(rows.last()))
    }
}

/// The header: the magic number, the width and height, and the largest
/// channel value, one to a line.
pub open spec fn header_text(width: nat, height: nat) -> Seq<char> {
    seq!['P', '3', '\n'] + decimal(width) + seq![' '] + decimal(height) + seq!['\n', '2', '5', '5', '\n']
}

proof fn lemma_channel_token_len(v: u8)
    ensures
        1 <= decimal(v as nat).len() <= 3,
{
    reveal_with_fuel(decimal, 3);
}

/// Builds the header for an image of `width` by `height` pixels.
pub fn format_header(width: usize, height: usize) -> (r: String)
    ensures
        r@ == header_text(width as nat, height as nat),
{
    proof {
        reveal_strlit("P3\n");
        reveal_strlit(" ");
        reveal_strlit("\n255\n");
    }
    let mut s = String::new();
    s.append("P3\n");
    push_decimal(&mut s, width);
    s.append(" ");
    push_decimal(&mut s, height);
    s.append("\n255\n");
    assert(s@ =~= header_text(width as nat, height as nat));
    s
}

/// Formats one row of the body from its channel values.
pub fn format_vector(vals: &Vec<u8>) -> (r: String)
    ensures
        r@ == row_text(vals@),
{
    proof {
        reveal_strlit(" ");
        reveal_strlit("\n");
        assert(" "@ =~= seq![' ']);
        assert("\n"@ =~= seq!['\n']);
    }
    let ghost toks = channel_tokens(vals@);
    let mut joined = String::new();
    let mut i: usize = 0;
    while i < vals.len()
        invariant
            i <= vals.len(),
            toks == channel_tokens(vals@),
            " "@ == seq![' '],
            "\n"@ == seq!['\n'],
            joined@ == join_spaced(toks.take(i as int)),
        decreases vals.len() - i,
    {
        let ghost before = joined@;
        if i > 0 {
            joined.append(" ");
        }
        push_decimal(&mut joined, vals[i] as usize);
        proof {
            assert(toks.take(i + 1).drop_last() =~= toks.take(i as int));
            assert(toks.take(i + 1).last() == decimal(vals@[i as int] as nat));
            if i == 0 {
                assert(joined@ =~= toks.take(1)[0]);
            } else {
                assert(joined@ =~= before.push(' ') + toks.take(i + 1).last());
            }
        }
        i += 1;
    }
    assert(toks.take(vals.len() as int) =~= toks);
    if joined.as_str().unicode_len() <= MAX_LINE_WIDTH {
        joined.append("\n");
        assert(seq![join_spaced(toks)].drop_last() =~= Seq::<Seq<char>>::empty());
        assert(lines_text(Seq::<Seq<char>>::empty()) == Seq::<char>::empty());
        assert(seq![join_spaced(toks)].last() == join_spaced(toks));
        assert(joined@ =~= lines_text(seq![join_spaced(toks)]));
        return joined;
    }
    let mut done = String::new();
    let mut open = String::new();
    let mut open_len: usize = 0;
    let mut i: usize = 0;
    while i < vals.len()
        invariant
            i <= vals.len(),
            toks == channel_tokens(vals@),
            " "@ == seq![' '],
            "\n"@ == seq!['\n'],
            i == 0 ==> done@ == Seq::<char>::empty(),
            i > 0 ==> pack_lines(toks.take(i as int)).len() >= 1,
            i > 0 ==> done@ == lines_text(pack_lines(toks.take(i as int)).drop_last()),
            i > 0 ==> open@ == pack_lines(toks.take(i as int)).last(),
            open_len == open@.len(),
            open_len <= MAX_LINE_WIDTH,
        decreases vals.len() - i,
    {
        let ghost done0 = done@;
        let ghost open0 = open@;
        let tok = decimal_string(vals[i] as usize);
        let tok_len = tok.as_str().unicode_len();
        proof {
            lemma_channel_token_len(vals@[i as int]);
            assert(toks.take(i + 1).drop_last() =~= toks.take(i as int));
            assert(toks.take(i + 1).last() == tok@);
        }
        if i == 0 {
            open = tok;
            open_len = tok_len;
        } else if open_len + 1 + tok_len > MAX_LINE_WIDTH {
            done.append(open.as_str());
            done.append("\n");
            open = tok;
            open_len = tok_len;
        } else {
            open.append(" ");
            open.append(tok.as_str());
            open_len = open_len + 1 + tok_len;
        }
        proof {
            let lines = pack_lines(toks.take(i as int));
            let next = pack_lines(toks.take(i + 1));
            if i == 0 {
                assert(next =~= seq![tok@]);
                assert(next.drop_last() =~= Seq::<Seq<char>>::empty());
                assert(open@ =~= tok@);
            } else if open0.len() + 1 + tok@.len() > MAX_LINE_WIDTH {
                assert(next == lines.push(tok@));
                assert(next.drop_last() =~= lines);
                assert(done@ =~= done0 + open0.push('\n'));
            } else {
                assert(next.drop_last() =~= lines.drop_last());
                assert(open@ =~= open0.push(' ') + tok@);
            }
        }
        i += 1;
    }
    done.append(open.as_str());
    done.append("\n");
    assert(done@ =~= lines_text(pack_lines(toks)));
    done
}

/// Tokens that can stand on a line: not empty, not longer than a line, and
/// free of line breaks.
pub open spec fn line_tokens(toks: Seq<Seq<char>>) -> bool {
    forall|j: int|
        0 <= j < toks.len() ==> 1 <= #[trigger] toks[j].len() <= MAX_LINE_WIDTH && forall|k: int|
            0 <= k < toks[j].len() ==> toks[j][k] != '\n'
}

proof fn lemma_decimal_no_newline(n: nat)
    ensures
        forall|k: int| 0 <= k < decimal(n).len() ==> decimal(n)[k] != '\n',
    decreases n,
{
    if n >= 10 {
        lemma_decimal_no_newline(n / 10);
        let d = decimal(n);
        let prefix = decimal(n / 10);
        assert(d == prefix.push(digit_char(n % 10)));
        assert forall|k: int| 0 <= k < d.len() implies d[k] != '\n' by {
            if k < prefix.len() {
                assert(d[k] == prefix[k]);
            }
        }
    }
}

proof fn lemma_channel_tokens_fit(vals: Seq<u8>)
    ensures
        line_tokens(channel_tokens(vals)),
{
    let toks = channel_tokens(vals);
    assert forall|j: int| 0 <= j < toks.len() implies 1 <= #[trigger] toks[j].len()
        <= MAX_LINE_WIDTH && forall|k: int| 0 <= k < toks[j].len() ==> toks[j][k] != '\n' by {
        lemma_channel_token_len(vals[j]);
        lemma_decimal_no_newline(vals[j] as nat);
    }
}

proof fn lemma_join_no_newline(toks: Seq<Seq<char>>)
    requires
        line_tokens(toks),
    ensures
        forall|k: int| 0 <= k < join_spaced(toks).len() ==> join_spaced(toks)[k] != '\n',
    decreases toks.len(),
{
    if toks.len() > 1 {
        let prev = toks.drop_last();
        assert(line_tokens(prev)) by {
            assert forall|j: int| 0 <= j < prev.len() implies 1 <= #[trigger] prev[j].len()
                <= MAX_LINE_WIDTH && forall|k: int| 0 <= k < prev[j].len() ==> prev[j][k] != '\n' by {
                assert(prev[j] == toks[j]);
            }
        }
        lemma_join_no_newline(prev);
        let j = join_spaced(prev).push(' ') + toks.last();
        assert forall|k: int| 0 <= k < j.len() implies j[k] != '\n' by {
            if k >= join_spaced(prev).len() + 1 {
                assert(j[k] == toks.last()[k - join_spaced(prev).len() - 1]);
            }
        }
    }
}

proof fn lemma_pack_lines(toks: Seq<Seq<char>>)
    requires
        line_tokens(toks),
    ensures
        toks.len() >= 1 ==> pack_lines(toks).len() >= 1,
        toks.len() >= 1 ==> join_spaced(pack_lines(toks)) == join_spaced(toks),
        forall|i: int|
            0 <= i < pack_lines(toks).len() ==> #[trigger] pack_lines(toks)[i].len()
                <= MAX_LINE_WIDTH,
        forall|i: int, k: int|
            0 <= i < pack_lines(toks).len() && 0 <= k < pack_lines(toks)[i].len() ==> #[trigger] pack_lines(toks)[i][k] != '\n',
    decreases toks.len(),
{
    if toks.len() > 1 {
        let prev = toks.drop_last();
        assert(line_tokens(prev)) by {
            assert forall|j: int| 0 <= j < prev.len() implies 1 <= #[trigger] prev[j].len()
                <= MAX_LINE_WIDTH && forall|k: int| 0 <= k < prev[j].len() ==> prev[j][k] != '\n' by {
                assert(prev[j] == toks[j]);
            }
        }
        lemma_pack_lines(prev);
        let lines = pack_lines(prev);
        let open = lines.last();
        let t = toks.last();
        assert(t == toks[toks.len() - 1]);
        let next = pack_lines(toks);
        if open.len() + 1 + t.len() > MAX_LINE_WIDTH {
            assert(next == lines.push(t));
            assert(next.drop_last() =~= lines);
            assert forall|i: int, k: int|
                0 <= i < next.len() && 0 <= k < next[i].len() implies #[trigger] next[i][k] != '\n' by {
                if i < lines.len() {
                    assert(next[i] == lines[i]);
                }
            }
        } else {
            let last = open.push(' ') + t;
            assert(next == lines.update(lines.len() - 1, last));
            assert forall|k: int| 0 <= k < last.len() implies last[k] != '\n' by {
                if k < open.len() {
                    assert(last[k] == lines[lines.len() - 1][k]);
                } else if k > open.len() {
                    assert(last[k] == t[k - open.len() - 1]);
                }
            }
            assert forall|i: int, k: int|
                0 <= i < next.len() && 0 <= k < next[i].len() implies #[trigger] next[i][k] != '\n' by {
                if i < lines.len() - 1 {
                    assert(next[i] == lines[i]);
                }
            }
            assert(next.drop_last() =~= lines.drop_last());
            if lines.len() > 1 {
                assert(join_spaced(next) == join_spaced(lines.drop_last()).push(' ') + last);
                assert(join_spaced(next) =~= join_spaced(lines).push(' ') + t);
            } else {
                assert(join_spaced(next) =~= join_spaced(lines).push(' ') + t);
            }
        }
    }
}

/// How a row's text is laid out in lines. The text is the row's lines, at
/// least one, each ended by a newline, so the text ends with a newline. No
/// line is longer than `MAX_LINE_WIDTH` or holds a line break. Joined again by
/// single spaces, the lines give back the row's tokens joined by single
/// spaces: wrapping only turns separating spaces into line breaks and never
/// splits a token.
pub proof fn lemma_row_wrapping(vals: Seq<u8>)
    ensures
        row_text(vals) == lines_text(row_lines(vals)),
        row_lines(vals).len() >= 1,
        row_text(vals).len() >= 1,
        row_text(vals).last() == '\n',
        forall|i: int|
            0 <= i < row_lines(vals).len() ==> #[trigger] row_lines(vals)[i].len()
                <= MAX_LINE_WIDTH,
        forall|i: int, k: int|
            0 <= i < row_lines(vals).len() && 0 <= k < row_lines(vals)[i].len() ==> #[trigger] row_lines(vals)[i][k] != '\n',
        join_spaced(row_lines(vals)) == join_spaced(channel_tokens(vals)),
{
    let toks = channel_tokens(vals);
    let lines = row_lines(vals);
    lemma_channel_tokens_fit(vals);
    if join_spaced(toks).len() <= MAX_LINE_WIDTH {
        lemma_join_no_newline(toks);
        assert(lines == seq![join_spaced(toks)]);
        assert(forall|i: int| 0 <= i < lines.len() ==> lines[i] == join_spaced(toks));
    } else {
        assert(toks.len() >= 1);
        lemma_pack_lines(toks);
    }
    assert(lines_text(lines) == lines_text(lines.drop_last()) + lines.last().push('\n'));
}

} // verus!
