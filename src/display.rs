//! Framing display lines in a box drawn with single or double lines.
use vstd::prelude::*;
use vstd::string::*;

verus! {

/// The stroke of a box's border.
#[derive(Clone, Copy, Debug, PartialEq, Eq, Structural)]
pub enum DisplayType {
    SingleLine,
    DoubleLine,
}

/// The stroke for a block: double for even block numbers, single for odd.
pub fn display_type_for(block_number: u64) -> (r: DisplayType)
    ensures
        r == (if block_number % 2 == 0 { DisplayType::DoubleLine } else { DisplayType::SingleLine }),
{
    if block_number % 2 == 0 {
        DisplayType::DoubleLine
    } else {
        DisplayType::SingleLine
    }
}

/// The border characters: top left, horizontal, top right, vertical,
/// bottom left, bottom right.
pub open spec fn strokes(d: DisplayType) -> Seq<char> {
    match d {
        DisplayType::DoubleLine => seq!['╔', '═', '╗', '║', '╚', '╝'],
        DisplayType::SingleLine => seq!['┌', '─', '┐', '│', '└', '┘'],
    }
}

/// The number of characters of the longest line; zero for no line.
pub open spec fn widest(lines: Seq<Seq<char>>) -> nat
    decreases lines.len(),
{
    if lines.len() == 0 {
        0
    } else if lines.last().len() > widest(lines.drop_last()) {
        lines.last().len()
    } else {
        widest(lines.drop_last())
    }
}

pub open spec fn repeated(c: char, n: nat) -> Seq<char> {
    Seq::new(n, |i: int| c)
}

/// The boxed form of `lines`: a top border, each line padded with spaces
/// to the widest and framed by vertical strokes, then a bottom border.
pub open spec fn boxed(lines: Seq<Seq<char>>, d: DisplayType) -> Seq<Seq<char>> {
    let w = widest(lines);
    let k = strokes(d);
    seq![seq![k[0]] + repeated(k[1], w) + seq![k[2]]] + lines.map_values(
        |l: Seq<char>| seq![k[3]] + l + repeated(' ', (w - l.len()) as nat) + seq![k[3]],
    ) + seq![seq![k[4]] + repeated(k[1], w) + seq![k[5]]]
}

proof fn lemma_widest_bounds(lines: Seq<Seq<char>>)
    ensures
        forall|i: int| 0 <= i < lines.len() ==> (#[trigger] lines[i]).len() <= widest(lines),
        lines.len() > 0 ==> exists|i: int| 0 <= i < lines.len() && (#[trigger] lines[i]).len() == widest(lines),
    decreases lines.len(),
{
    if lines.len() > 0 {
        lemma_widest_bounds(lines.drop_last());
        assert forall|i: int| 0 <= i < lines.len() implies (#[trigger] lines[i]).len() <= widest(lines) by {
            if i < lines.len() - 1 {
                assert(lines[i] == lines.drop_last()[i]);
            }
        }
        if lines.last().len() <= widest(lines.drop_last()) && lines.len() > 1 {
            let i = choose|i: int| 0 <= i < lines.drop_last().len() && (#[trigger] lines.drop_last()[i]).len() == widest(lines.drop_last());
            assert(lines[i] == lines.drop_last()[i]);
        } else {
            assert(lines[lines.len() - 1] == lines.last());
        }
    }
}

fn stroke(d: DisplayType, k: usize) -> (r: &'static str)
    requires
        k < 6,
    ensures
        r@ == seq![strokes(d)[k as int]],
{
    match d {
        DisplayType::DoubleLine => match k {
            0 => { proof { reveal_strlit("╔"); } "╔" },
            1 => { proof { reveal_strlit("═"); } "═" },
            2 => { proof { reveal_strlit("╗"); } "╗" },
            3 => { proof { reveal_strlit("║"); } "║" },
            4 => { proof { reveal_strlit("╚"); } "╚" },
            _ => { proof { reveal_strlit("╝"); } "╝" },
        },
        DisplayType::SingleLine => match k {
            0 => { proof { reveal_strlit("┌"); } "┌" },
            1 => { proof { reveal_strlit("─"); } "─" },
            2 => { proof { reveal_strlit("┐"); } "┐" },
            3 => { proof { reveal_strlit("│"); } "│" },
            4 => { proof { reveal_strlit("└"); } "└" },
            _ => { proof { reveal_strlit("┘"); } "┘" },
        },
    }
}

fn push_repeated(out: &mut String, piece: &str, n: usize)
    requires
        piece@.len() == 1,
    ensures
        final(out)@ == old(out)@ + repeated(piece@[0], n as nat),
{
    let mut i: usize = 0;
    while i < n
        invariant
            0 <= i <= n,
            piece@.len() == 1,
            out@ == old(out)@ + repeated(piece@[0], i as nat),
        decreases n - i,
    {
        out.append(piece);
        assert(out@ =~= old(out)@ + repeated(piece@[0], (i + 1) as nat));
        i = i + 1;
    }
}

fn border(d: DisplayType, left: usize, right: usize, w: usize) -> (r: String)
    requires
        left < 6,
        right < 6,
    ensures
        r@ == seq![strokes(d)[left as int]] + repeated(strokes(d)[1], w as nat) + seq![strokes(d)[right as int]],
{
    let mut s = String::from_str(stroke(d, left));
    push_repeated(&mut s, stroke(d, 1), w);
    s.append(stroke(d, right));
    s
}

/// Frames `lines` in a box; widths count characters.
pub fn boxed_lines(lines: &Vec<String>, display: DisplayType) -> (r: Vec<String>)
    ensures
        r@.map_values(|l: String| l@) == boxed(lines@.map_values(|l: String| l@), display),
{
    let ghost views = lines@.map_values(|l: String| l@);
    let mut w: usize = 0;
    let mut i: usize = 0;
    while i < lines.len()
        invariant
            0 <= i <= lines@.len(),
            views == lines@.map_values(|l: String| l@),
            w as nat == widest(views.subrange(0, i as int)),
        decreases lines@.len() - i,
    {
        assert(views.subrange(0, i + 1).drop_last() =~= views.subrange(0, i as int));
        let n = lines[i].as_str().unicode_len();
        if n > w {
            w = n;
        }
        i = i + 1;
    }
    assert(views.subrange(0, i as int) =~= views);
    proof { lemma_widest_bounds(views); }
    let ghost want = boxed(views, display);
    let mut out: Vec<String> = Vec::new();
    out.push(border(display, 0, 2, w));
    let mut j: usize = 0;
    while j < lines.len()
        invariant
            0 <= j <= lines@.len(),
            views == lines@.map_values(|l: String| l@),
            w as nat == widest(views),
            forall|k: int| 0 <= k < views.len() ==> (#[trigger] views[k]).len() <= w,
            want == boxed(views, display),
            out@.len() == j + 1,
            forall|k: int| 0 <= k <= j ==> #[trigger] out@[k]@ == want[k],
        decreases lines@.len() - j,
    {
        let v = stroke(display, 3);
        let mut l = String::from_str(v);
        l.append(lines[j].as_str());
        let n = lines[j].as_str().unicode_len();
        assert(views[j as int] == lines@[j as int]@);
        proof { reveal_strlit(" "); }
        push_repeated(&mut l, " ", w - n);
        l.append(v);
        assert(l@ =~= want[j + 1]);
        out.push(l);
        j = j + 1;
    }
    out.push(border(display, 4, 5, w));
    assert forall|k: int| 0 <= k < out@.len() implies #[trigger] out@[k]@ == want[k] by {}
    assert(out@.map_values(|l: String| l@) =~= want);
    out
}

} // verus!
