//! Tournament matrix cells and the number and colour formatting of the matrix chart.

use vstd::prelude::*;
use crate::text::{decimal, digit_char, push_char, u64_to_decimal};

verus! {

/// Head-to-head record of a row team (playing as team 0) against a column team.
#[derive(Clone, Copy, Debug)]
pub struct MatrixCell {
    pub team0_wins: u32,
    pub team1_wins: u32,
    pub draws: u32,
    pub team0_goals: u64,
    pub team1_goals: u64,
    pub games: u32,
}

impl Default for MatrixCell {
    fn default() -> (res: Self)
        ensures
            res.team0_wins == 0 && res.team1_wins == 0 && res.draws == 0,
            res.team0_goals == 0 && res.team1_goals == 0 && res.games == 0,
    {
        MatrixCell { team0_wins: 0, team1_wins: 0, draws: 0, team0_goals: 0, team1_goals: 0, games: 0 }
    }
}

/// The cell after one more game with the given score.
pub open spec fn cell_after(c: MatrixCell, goals0: u32, goals1: u32) -> MatrixCell {
    MatrixCell {
        team0_wins: if goals0 > goals1 { (c.team0_wins + 1) as u32 } else { c.team0_wins },
        team1_wins: if goals1 > goals0 { (c.team1_wins + 1) as u32 } else { c.team1_wins },
        draws: if goals0 == goals1 { (c.draws + 1) as u32 } else { c.draws },
        team0_goals: (c.team0_goals + goals0) as u64,
        team1_goals: (c.team1_goals + goals1) as u64,
        games: (c.games + 1) as u32,
    }
}

impl MatrixCell {
    /// Every game counted in `games` is a win, a loss or a draw.
    pub open spec fn wf(&self) -> bool {
        self.team0_wins + self.team1_wins + self.draws == self.games
    }

    /// Adds one game with final score `goals0`–`goals1` (row team first).
    pub fn record_game(&mut self, goals0: u32, goals1: u32)
        requires
            old(self).wf(),
            old(self).games < u32::MAX,
            old(self).team0_goals + goals0 <= u64::MAX,
            old(self).team1_goals + goals1 <= u64::MAX,
        ensures
            final(self).wf(),
            *final(self) == cell_after(*old(self), goals0, goals1),
    {
        if goals0 > goals1 {
            self.team0_wins = self.team0_wins + 1;
        } else if goals1 > goals0 {
            self.team1_wins = self.team1_wins + 1;
        } else {
            self.draws = self.draws + 1;
        }
        self.team0_goals = self.team0_goals + goals0 as u64;
        self.team1_goals = self.team1_goals + goals1 as u64;
        self.games = self.games + 1;
    }
}

/// Whether a space goes in front of digit `i` of a number with `n` digits.
pub open spec fn space_before(i: int, n: int) -> bool {
    i > 0 && (n - i) % 3 == 0
}

/// The first `i` digits of `d` with a space in front of every digit that starts a group
/// of three counted from the right.
pub open spec fn grouped_prefix(d: Seq<char>, i: nat) -> Seq<char>
    decreases i,
{
    if i == 0 {
        Seq::empty()
    } else {
        let before = grouped_prefix(d, (i - 1) as nat);
        let with_space = if space_before(i - 1, d.len() as int) { before.push(' ') } else { before };
        with_space.push(d[i - 1])
    }
}

/// Decimal digits of `n` in groups of three from the right, separated by spaces
/// (e.g. 1234567 → "1 234 567").
pub open spec fn thousands(n: nat) -> Seq<char> {
    grouped_prefix(decimal(n), decimal(n).len())
}

/// Formats `n` with a space between groups of three digits, counted from the right.
pub fn format_thousands(n: u64) -> (res: String)
    ensures
        res@ == thousands(n as nat),
{
    let digits = u64_to_decimal(n);
    let s = digits.as_str();
    let len = s.unicode_len();
    let mut out = String::new();
    let mut i: usize = 0;
    while i < len
        invariant
            len == s@.len(),
            s@ == decimal(n as nat),
            i <= len,
            out@ == grouped_prefix(s@, i as nat),
        decreases len - i,
    {
        if i > 0 && (len - i) % 3 == 0 {
            push_char(&mut out, ' ');
        }
        push_char(&mut out, s.get_char(i));
        i = i + 1;
    }
    out
}

/// Removing the spaces of `s`.
pub open spec fn without_spaces(s: Seq<char>) -> Seq<char>
    decreases s.len(),
{
    if s.len() == 0 {
        s
    } else if s.last() == ' ' {
        without_spaces(s.drop_last())
    } else {
        without_spaces(s.drop_last()).push(s.last())
    }
}

proof fn lemma_digits_have_no_space(n: nat)
    ensures
        forall|k: int| 0 <= k < decimal(n).len() ==> decimal(n)[k] != ' ',
    decreases n,
{
    if n >= 10 {
        lemma_digits_have_no_space(n / 10);
        let d = (n % 10) as nat;
        assert(('0' as nat) + d < 0xD800);
        assert(digit_char(d) as nat == ('0' as nat) + d);
        let prev = decimal(n / 10);
        assert forall|k: int| 0 <= k < decimal(n).len() implies decimal(n)[k] != ' ' by {
            if k < prev.len() {
                assert(decimal(n)[k] == prev[k]);
            }
        }
    } else {
        assert(digit_char(n) as nat == ('0' as nat) + n);
    }
}

proof fn lemma_grouped_prefix_strips(d: Seq<char>, i: nat)
    requires
        i <= d.len(),
        forall|k: int| 0 <= k < d.len() ==> d[k] != ' ',
    ensures
        without_spaces(grouped_prefix(d, i)) == d.take(i as int),
    decreases i,
{
    if i > 0 {
        lemma_grouped_prefix_strips(d, (i - 1) as nat);
        let before = grouped_prefix(d, (i - 1) as nat);
        let with_space = if space_before(i - 1, d.len() as int) { before.push(' ') } else { before };
        assert(with_space.push(d[i - 1]).drop_last() == with_space);
        if space_before(i - 1, d.len() as int) {
            assert(before.push(' ').drop_last() == before);
        }
        assert(d.take(i as int) =~= d.take(i - 1).push(d[i - 1]));
        assert(without_spaces(with_space) == d.take(i - 1));
        assert(without_spaces(with_space.push(d[i - 1])) == without_spaces(with_space).push(d[i - 1]));
    } else {
        assert(d.take(0) =~= Seq::<char>::empty());
    }
}

/// Grouping only inserts spaces: without them the text is the plain decimal number.
pub proof fn lemma_thousands_digits(n: nat)
    ensures
        without_spaces(thousands(n)) == decimal(n),
{
    lemma_digits_have_no_space(n);
    lemma_grouped_prefix_strips(decimal(n), decimal(n).len());
    assert(decimal(n).take(decimal(n).len() as int) =~= decimal(n));
}

/// Lower-case hexadecimal digit of `d` (0..=15).
pub open spec fn hex_digit(d: nat) -> char {
    if d < 10 { (('0' as nat) + d) as char } else { (('a' as nat) + d - 10) as char }
}

/// Two lower-case hexadecimal digits of a byte.
pub open spec fn hex_byte(b: u8) -> Seq<char> {
    seq![hex_digit(b as nat / 16), hex_digit(b as nat % 16)]
}

fn hex_digit_exec(d: u8) -> (c: char)
    requires
        d < 16,
    ensures
        c == hex_digit(d as nat),
{
    if d < 10 { (48u8 + d) as char } else { (87u8 + d) as char }
}

fn push_hex_byte(s: &mut String, b: u8)
    ensures
        final(s)@ == old(s)@ + hex_byte(b),
{
    push_char(s, hex_digit_exec(b / 16));
    push_char(s, hex_digit_exec(b % 16));
    proof {
        assert(final(s)@ =~= old(s)@ + hex_byte(b));
    }
}

/// A colour as `#rrggbb` in lower-case hexadecimal.
pub fn hex_color(r: u8, g: u8, b: u8) -> (res: String)
    ensures
        res@ == seq!['#'] + hex_byte(r) + hex_byte(g) + hex_byte(b),
{
    let mut out = String::new();
    push_char(&mut out, '#');
    push_hex_byte(&mut out, r);
    push_hex_byte(&mut out, g);
    push_hex_byte(&mut out, b);
    proof {
        assert(out@ =~= seq!['#'] + hex_byte(r) + hex_byte(g) + hex_byte(b));
    }
    out
}

} // verus!
