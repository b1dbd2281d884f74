//! Row rendering: every line of a diagram is one of a few shapes, drawn as a
//! sequence of tokens (one per column) followed by an optional label.
use vstd::prelude::*;

verus! {

/// The shape of a drawn row. Each shape is a pure function of the number of
/// tokens in the row and of at most two distinguished columns.
#[derive(Clone, Copy, Debug, PartialEq, Eq, Structural)]
pub enum Shape {
    /// A rail in every column.
    Plain,
    /// A rail in every column but the given one, which holds a waypoint marker.
    Marker(usize),
    /// A new rail peels off to the right of the given column; the columns
    /// further right are pushed out by one slot.
    Branch(usize),
    /// The given column ends.
    Halt(usize),
    /// The given column has ended and the columns right of it move one step left.
    Pull(usize),
    /// The rail right of the given column merges into it; columns further right
    /// move one step left.
    Merge(usize),
    /// First row of a merge across other rails: the rail at the second column
    /// slides left under the rails between it and the first column.
    Slide(usize, usize),
    /// Second row of a merge across other rails: the sliding rail lands on the
    /// given column.
    Land(usize),
}

/// The token drawn in column `i` of a row of the given shape with `width` tokens.
pub open spec fn token(shape: Shape, width: nat, i: int) -> Seq<char> {
    match shape {
        Shape::Plain => seq!['|'],
        Shape::Marker(k) => if i == k { seq!['*'] } else { seq!['|'] },
        Shape::Branch(c) => if i < c {
            seq!['|']
        } else if i == c {
            seq!['|', '\\']
        } else {
            seq!['\\']
        },
        Shape::Halt(k) => if i == k { seq!['"'] } else { seq!['|'] },
        Shape::Pull(k) => if i < k {
            seq!['|']
        } else if i == k {
            seq![]
        } else {
            seq!['/']
        },
        Shape::Merge(l) => if i < l {
            seq!['|']
        } else if i == l {
            seq!['|', '/']
        } else {
            seq!['/']
        },
        Shape::Slide(l, r) => if i <= l {
            seq!['|', ' ']
        } else if i + 1 < r {
            seq!['|', '_']
        } else if i + 1 == r {
            seq!['|', '/']
        } else {
            seq![' ', '/']
        },
        Shape::Land(l) => if i == l {
            seq!['|', '/']
        } else if i + 1 == width {
            seq!['|']
        } else {
            seq!['|', ' ']
        },
    }
}

/// Packed rows write their tokens back to back; the others put one space
/// between neighbouring tokens.
pub open spec fn is_packed(shape: Shape) -> bool {
    shape is Slide || shape is Land
}

/// The text of the first `i` tokens of a row.
pub open spec fn body_prefix(shape: Shape, width: nat, i: nat) -> Seq<char>
    decreases i,
{
    if i == 0 {
        seq![]
    } else {
        let sep = if !is_packed(shape) && i > 1 {
            seq![' ']
        } else {
            seq![]
        };
        body_prefix(shape, width, (i - 1) as nat) + sep + token(shape, width, i - 1)
    }
}

/// The text of a row of the given shape with `width` tokens, without label.
pub open spec fn body(shape: Shape, width: nat) -> Seq<char> {
    body_prefix(shape, width, width)
}

/// One emitted row: its shape, its number of tokens and its label, if any.
pub struct Row {
    pub shape: Shape,
    pub width: nat,
    pub label: Option<Seq<char>>,
}

/// A row as written out: the tokens, then a space and the label, then a line break.
pub open spec fn line(row: Row) -> Seq<char> {
    let label = match row.label {
        Some(l) => seq![' '] + l,
        None => seq![],
    };
    body(row.shape, row.width) + label + seq!['\n']
}

/// The text of a sequence of rows, each on a line of its own.
pub open spec fn rows_text(rows: Seq<Row>) -> Seq<char>
    decreases rows.len(),
{
    if rows.len() == 0 {
        seq![]
    } else {
        rows_text(rows.drop_last()) + line(rows.last())
    }
}

/// The text of no row, one row and two rows.
pub proof fn lemma_rows_text_small(a: Row, b: Row)
    ensures
        rows_text(seq![]) == Seq::<char>::empty(),
        rows_text(seq![a]) == line(a),
        rows_text(seq![a, b]) == line(a) + line(b),
{
    let none = Seq::<Row>::empty();
    assert(rows_text(none) == Seq::<char>::empty());
    assert(seq![a].drop_last() =~= none);
    assert(seq![a].last() == a);
    assert(rows_text(seq![a]) == rows_text(none) + line(a));
    assert(rows_text(seq![a]) =~= line(a));
    assert(seq![a, b].drop_last() =~= seq![a]);
}

/// The text of the first `j + 1` rows extends that of the first `j` by row `j`.
pub proof fn lemma_rows_text_take(rows: Seq<Row>, j: int)
    requires
        0 <= j < rows.len(),
    ensures
        rows_text(rows.take(j + 1)) == rows_text(rows.take(j)) + line(rows[j]),
{
    assert(rows.take(j + 1).drop_last() =~= rows.take(j));
}

fn token_str(shape: Shape, width: usize, i: usize) -> (r: &'static str)
    ensures
        r@ == token(shape, width as nat, i as int),
{
    proof {
        reveal_strlit("|");
        reveal_strlit("*");
        reveal_strlit("|\\");
        reveal_strlit("\\");
        reveal_strlit("\"");
        reveal_strlit("");
        reveal_strlit("/");
        reveal_strlit("|/");
        reveal_strlit("| ");
        reveal_strlit("|_");
        reveal_strlit(" /");
    }
    match shape {
        Shape::Plain => "|",
        Shape::Marker(k) => if i == k { "*" } else { "|" },
        Shape::Branch(c) => if i < c {
            "|"
        } else if i == c {
            "|\\"
        } else {
            "\\"
        },
        Shape::Halt(k) => if i == k { "\"" } else { "|" },
        Shape::Pull(k) => if i < k {
            "|"
        } else if i == k {
            ""
        } else {
            "/"
        },
        Shape::Merge(l) => if i < l {
            "|"
        } else if i == l {
            "|/"
        } else {
            "/"
        },
        Shape::Slide(l, r) => if i <= l {
            "| "
        } else if i < r && r - i > 1 {
            "|_"
        } else if i < r {
            "|/"
        } else {
            " /"
        },
        Shape::Land(l) => if i == l {
            "|/"
        } else if width > 0 && i == width - 1 {
            "|"
        } else {
            "| "
        },
    }
}

/// Appends the tokens of a row of the given shape with `width` tokens.
pub fn push_body(out: &mut String, shape: Shape, width: usize)
    ensures
        final(out)@ == old(out)@ + body(shape, width as nat),
{
    let packed = matches!(shape, Shape::Slide(..) | Shape::Land(..));
    let mut i: usize = 0;
    while i < width
        invariant
            i <= width,
            packed == is_packed(shape),
            out@ == old(out)@ + body_prefix(shape, width as nat, i as nat),
        decreases width - i,
    {
        let ghost before = out@;
        if !packed && i > 0 {
            out.append(" ");
            proof {
                reveal_strlit(" ");
            }
        }
        let t = token_str(shape, width, i);
        out.append(t);
        i = i + 1;
        proof {
            let sep = if !packed && i > 1 {
                seq![' ']
            } else {
                seq![]
            };
            assert(out@ =~= before + sep + token(shape, width as nat, i - 1));
            assert(out@ =~= old(out)@ + body_prefix(shape, width as nat, i as nat));
        }
    }
}

/// The text of a row of the given shape with `width` tokens.
pub fn draw_row(shape: Shape, width: usize) -> (s: String)
    ensures
        s@ == body(shape, width as nat),
{
    let mut s = String::new();
    push_body(&mut s, shape, width);
    s
}

/// Appends an unlabelled row and its line break.
pub fn push_row(out: &mut String, shape: Shape, width: usize)
    ensures
        final(out)@ == old(out)@ + line(Row { shape, width: width as nat, label: None }),
{
    push_body(out, shape, width);
    out.append("\n");
    proof {
        reveal_strlit("\n");
        assert(final(out)@ =~= old(out)@ + line(Row { shape, width: width as nat, label: None }));
    }
}

/// Appends a row, a space, the label and a line break.
pub fn push_labeled_row(out: &mut String, shape: Shape, width: usize, label: &str)
    ensures
        final(out)@ == old(out)@ + line(Row { shape, width: width as nat, label: Some(label@) }),
{
    push_body(out, shape, width);
    out.append(" ");
    out.append(label);
    out.append("\n");
    proof {
        reveal_strlit(" ");
        reveal_strlit("\n");
        assert(final(out)@ =~= old(out)@ + line(
            Row { shape, width: width as nat, label: Some(label@) },
        ));
    }
}

} // verus!
