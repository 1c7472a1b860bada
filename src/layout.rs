use vstd::prelude::*;
use vstd::string::*;
use crate::render::spaces;

verus! {

/// Whether `c` has Unicode's White_Space property.
pub open spec fn is_white_space(c: char) -> bool {
    let u = c as u32;
    (0x9 <= u <= 0xd) || u == 0x20 || u == 0x85 || u == 0xa0 || u == 0x1680
        || (0x2000 <= u <= 0x200a) || u == 0x2028 || u == 0x2029 || u == 0x202f
        || u == 0x205f || u == 0x3000
}

/// Relies on `char::is_whitespace`: true exactly for the characters with Unicode's
/// White_Space property.
#[verifier::external_body]
fn char_is_whitespace(c: char) -> (r: bool)
    ensures
        r == is_white_space(c),
{
    c.is_whitespace()
}

/// A line is blank when it is nothing but white space (it trims to nothing).
pub open spec fn is_blank(s: Seq<char>) -> bool {
    forall|i: int| 0 <= i < s.len() ==> is_white_space(#[trigger] s[i])
}

/// The lines at index `j` of the blocks `lo..hi`.
pub open spec fn row_of(bs: Seq<Seq<Seq<char>>>, lo: int, hi: int, j: int) -> Seq<Seq<char>> {
    Seq::new((hi - lo) as nat, |t: int| bs[lo + t][j])
}

/// The lines joined with four spaces between each two.
pub open spec fn joined(ls: Seq<Seq<char>>) -> Seq<char>
    decreases ls.len(),
{
    if ls.len() == 0 {
        Seq::empty()
    } else if ls.len() == 1 {
        ls[0]
    } else {
        joined(ls.drop_last()) + spaces(4) + ls.last()
    }
}

pub open spec fn all_blank(ls: Seq<Seq<char>>) -> bool {
    forall|t: int| 0 <= t < ls.len() ==> is_blank(#[trigger] ls[t])
}

/// The first `n` output lines of the chunk of blocks `lo..hi`: each line index whose lines are
/// not all blank gives the joined line.
pub open spec fn chunk_out(bs: Seq<Seq<Seq<char>>>, lo: int, hi: int, n: nat) -> Seq<Seq<char>>
    decreases n,
{
    if n == 0 {
        Seq::empty()
    } else {
        let prev = chunk_out(bs, lo, hi, (n - 1) as nat);
        let row = row_of(bs, lo, hi, n - 1);
        if all_blank(row) {
            prev
        } else {
            prev.push(joined(row))
        }
    }
}

/// The output lines for the blocks from `lo` on, taken three at a time.
pub open spec fn composed_from(bs: Seq<Seq<Seq<char>>>, lo: int, lines: nat) -> Seq<Seq<char>>
    decreases bs.len() - lo,
{
    if lo < 0 || lo >= bs.len() {
        Seq::empty()
    } else {
        let hi = if bs.len() - lo < 3 { bs.len() as int } else { lo + 3 };
        chunk_out(bs, lo, hi, lines) + composed_from(bs, hi, lines)
    }
}

pub open spec fn blocks_view(blocks: Seq<Vec<String>>) -> Seq<Seq<Seq<char>>> {
    blocks.map_values(|b: Vec<String>| b@.map_values(|s: String| s@))
}

pub open spec fn lines_view(lines: Seq<String>) -> Seq<Seq<char>> {
    lines.map_values(|s: String| s@)
}

/// Whether the line trims to nothing.
pub fn is_blank_line(s: &String) -> (r: bool)
    ensures
        r == is_blank(s@),
{
    let text = s.as_str();
    let n = text.unicode_len();
    let mut i: usize = 0;
    while i < n
        invariant
            n == s@.len(),
            text@ == s@,
            i <= n,
            forall|k: int| 0 <= k < i ==> is_white_space(#[trigger] s@[k]),
        decreases n - i,
    {
        if !char_is_whitespace(text.get_char(i)) {
            return false;
        }
        i = i + 1;
    }
    true
}

/// Lays the blocks out three to a row: for each group of up to three blocks and each line
/// index, the lines of the group at that index joined by four spaces, leaving out the line
/// indices at which every block of the group is blank.
pub fn compose(blocks: &Vec<Vec<String>>) -> (r: Vec<String>)
    requires
        forall|i: int| 0 <= i < blocks@.len() ==> #[trigger] blocks@[i]@.len() == blocks@[0]@.len(),
    ensures
        blocks@.len() == 0 ==> r@.len() == 0,
        blocks@.len() > 0 ==> lines_view(r@) == composed_from(blocks_view(blocks@), 0, blocks@[0]@.len()),
{
    let ghost bs = blocks_view(blocks@);
    let mut out: Vec<String> = Vec::new();
    if blocks.len() == 0 {
        return out;
    }
    let lines = blocks[0].len();
    let mut lo: usize = 0;
    while lo < blocks.len()
        invariant
            bs == blocks_view(blocks@),
            lines == blocks@[0]@.len(),
            forall|i: int| 0 <= i < blocks@.len() ==> #[trigger] blocks@[i]@.len() == blocks@[0]@.len(),
            composed_from(bs, 0, lines as nat) == lines_view(out@) + composed_from(bs, lo as int, lines as nat),
        decreases blocks.len() - lo,
    {
        let hi: usize = if blocks.len() - lo < 3 { blocks.len() } else { lo + 3 };
        let ghost start = out@;
        let mut j: usize = 0;
        while j < lines
            invariant
                bs == blocks_view(blocks@),
                lo < hi <= blocks@.len(),
                hi - lo <= 3,
                lines == blocks@[0]@.len(),
                forall|i: int| 0 <= i < blocks@.len() ==> #[trigger] blocks@[i]@.len() == blocks@[0]@.len(),
                j <= lines,
                lines_view(out@) == lines_view(start) + chunk_out(bs, lo as int, hi as int, j as nat),
            decreases lines - j,
        {
            let ghost row = row_of(bs, lo as int, hi as int, j as int);
            let mut blank = true;
            let mut t: usize = lo;
            while t < hi
                invariant
                    lo <= t <= hi,
                    hi <= blocks@.len(),
                    j < lines,
                    lines == blocks@[0]@.len(),
                    forall|i: int| 0 <= i < blocks@.len() ==> #[trigger] blocks@[i]@.len() == blocks@[0]@.len(),
                    bs == blocks_view(blocks@),
                    row == row_of(bs, lo as int, hi as int, j as int),
                    blank == (forall|u: int| 0 <= u < t - lo ==> is_blank(#[trigger] row[u])),
                decreases hi - t,
            {
                assert(row[t - lo] == blocks@[t as int]@[j as int]@);
                if !is_blank_line(&blocks[t][j]) {
                    blank = false;
                }
                t = t + 1;
            }
            if !blank {
                let mut line = String::new();
                line.append(blocks[lo][j].as_str());
                assert(row_of(bs, lo as int, lo + 1, j as int) =~= seq![row[0]]);
                let mut t: usize = lo + 1;
                while t < hi
                    invariant
                        lo < t <= hi,
                        hi <= blocks@.len(),
                        j < lines,
                        lines == blocks@[0]@.len(),
                        forall|i: int| 0 <= i < blocks@.len() ==> #[trigger] blocks@[i]@.len() == blocks@[0]@.len(),
                        bs == blocks_view(blocks@),
                        row == row_of(bs, lo as int, hi as int, j as int),
                        line@ == joined(row_of(bs, lo as int, t as int, j as int)),
                    decreases hi - t,
                {
                    proof {
                        reveal_strlit("    ");
                        assert("    "@ =~= spaces(4));
                    }
                    line.append("    ");
                    line.append(blocks[t][j].as_str());
                    assert(row_of(bs, lo as int, t + 1, j as int).drop_last() =~= row_of(bs, lo as int, t as int, j as int));
                    t = t + 1;
                }
                assert(row_of(bs, lo as int, hi as int, j as int) =~= row);
                assert(!all_blank(row));
                let ghost before = out@;
                out.push(line);
                assert(lines_view(out@) =~= lines_view(before).push(joined(row)));
                assert(lines_view(out@) =~= lines_view(start) + chunk_out(bs, lo as int, hi as int, (j + 1) as nat));
            } else {
                assert(all_blank(row));
            }
            j = j + 1;
        }
        assert(lines_view(out@) + composed_from(bs, hi as int, lines as nat) =~= lines_view(start) + composed_from(bs, lo as int, lines as nat));
        lo = hi;
    }
    assert(lines_view(out@) + composed_from(bs, lo as int, lines as nat) =~= lines_view(out@));
    out
}

} // verus!
