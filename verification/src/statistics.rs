//! Counters that describe a search: how many nodes were evaluated, how often
//! the table helped, how many branches were cut. Each kind is counted twice,
//! over all depths and over the depth that is being searched.

use vstd::prelude::*;
use vstd::string::*;

verus! {

/// Number of kinds of event that are counted.
pub const LEN: usize = 9;

/// The kinds of event that are counted.
#[derive(Clone, Copy, Debug, PartialEq, Eq, Structural)]
pub enum Stat {
    NodesEvaluated,
    TableHits,
    TableMisses,
    CheckmatesFound,
    BranchesCut,
    PVMisses,
    TableEvalHits,
    NNUECacheHits,
    NNUECacheMisses,
}

/// The counters of one search. A counter that passes `u32::MAX` starts again
/// at zero.
#[derive(Clone, Copy, Debug)]
pub struct Counters {
    /// Events since the counters were last cleared.
    pub all: [u32; 9],
    /// Events of the depth that was finished last.
    pub last_depth: [u32; 9],
    /// Events of the depth that is being searched.
    pub this_depth: [u32; 9],
}

/// The digit `d` as a character.
pub open spec fn digit_char(d: nat) -> char {
    if d == 0 {
        '0'
    } else if d == 1 {
        '1'
    } else if d == 2 {
        '2'
    } else if d == 3 {
        '3'
    } else if d == 4 {
        '4'
    } else if d == 5 {
        '5'
    } else if d == 6 {
        '6'
    } else if d == 7 {
        '7'
    } else if d == 8 {
        '8'
    } else {
        '9'
    }
}

/// The decimal numeral of `n`, without leading zeros.
pub open spec fn decimal(n: nat) -> Seq<char>
    decreases n,
{
    if n < 10 {
        seq![digit_char(n)]
    } else {
        decimal(n / 10).push(digit_char(n % 10))
    }
}

/// A counter after one more event.
pub open spec fn bumped(count: u32) -> u32 {
    if count == u32::MAX {
        0
    } else {
        (count + 1) as u32
    }
}

/// The counters as three sequences of nine numbers each.
pub struct CountersView {
    pub all: Seq<u32>,
    pub last_depth: Seq<u32>,
    pub this_depth: Seq<u32>,
}

impl View for Counters {
    type V = CountersView;

    open spec fn view(&self) -> CountersView {
        CountersView {
            all: self.all@,
            last_depth: self.last_depth@,
            this_depth: self.this_depth@,
        }
    }
}

/// The counters after one more event of kind `stat`, counted over all depths
/// and at the current depth.
pub open spec fn bump(counters: CountersView, stat: Stat) -> CountersView {
    CountersView {
        all: counters.all.update(stat.index(), bumped(counters.all[stat.index()])),
        this_depth: counters.this_depth.update(
            stat.index(),
            bumped(counters.this_depth[stat.index()]),
        ),
        last_depth: counters.last_depth,
    }
}

/// The counters after a depth was closed: what was counted at that depth is
/// kept as the last depth's, and the current depth starts at zero.
pub open spec fn rolled(counters: CountersView) -> CountersView {
    CountersView {
        all: counters.all,
        last_depth: counters.this_depth,
        this_depth: Seq::new(LEN as nat, |i: int| 0u32),
    }
}

/// The counters that have counted nothing.
pub open spec fn zeroed() -> CountersView {
    CountersView {
        all: Seq::new(LEN as nat, |i: int| 0u32),
        last_depth: Seq::new(LEN as nat, |i: int| 0u32),
        this_depth: Seq::new(LEN as nat, |i: int| 0u32),
    }
}

/// The lines that describe one set of counters.
pub open spec fn report(stat: Seq<u32>) -> Seq<Seq<char>> {
    seq![
        "   Nodes evaluated: "@ + decimal(stat[0] as nat),
        "   Transposition table hits during move evaluation: "@ + decimal(stat[1] as nat),
        "   Transposition table hits during move ordering: "@ + decimal(stat[6] as nat),
        "   Transposition table misses during move evaluation: "@ + decimal(stat[2] as nat),
        "   NNUE cache hits: "@ + decimal(stat[7] as nat),
        "   NNUE cache misses: "@ + decimal(stat[8] as nat),
        "   Checkmates found: "@ + decimal(stat[3] as nat),
        "   Branches pruned: "@ + decimal(stat[4] as nat),
        "   Incorrect PV moves: "@ + decimal(stat[5] as nat),
    ]
}

/// The lines that describe a search: a heading and the counters over all
/// depths, then a heading and the counters of the depth finished last.
pub open spec fn full_report(counters: CountersView) -> Seq<Seq<char>> {
    seq!["Eval finished. Statistics for all depths:"@] + report(counters.all) + seq![
        "Eval finished. Statistics for final depth:"@,
    ] + report(counters.last_depth)
}

/// The views of the strings of `lines`.
pub open spec fn texts(lines: Seq<String>) -> Seq<Seq<char>> {
    Seq::new(lines.len(), |i: int| lines[i]@)
}

/// The numeral of a digit.
fn digit(d: u32) -> (numeral: &'static str)
    requires
        d < 10,
    ensures
        numeral@ == seq![digit_char(d as nat)],
{
    proof {
        reveal_strlit("0");
        reveal_strlit("1");
        reveal_strlit("2");
        reveal_strlit("3");
        reveal_strlit("4");
        reveal_strlit("5");
        reveal_strlit("6");
        reveal_strlit("7");
        reveal_strlit("8");
        reveal_strlit("9");
    }
    let numeral = if d == 0 {
        "0"
    } else if d == 1 {
        "1"
    } else if d == 2 {
        "2"
    } else if d == 3 {
        "3"
    } else if d == 4 {
        "4"
    } else if d == 5 {
        "5"
    } else if d == 6 {
        "6"
    } else if d == 7 {
        "7"
    } else if d == 8 {
        "8"
    } else {
        "9"
    };
    assert(numeral@ =~= seq![digit_char(d as nat)]);
    numeral
}

/// Appends the decimal numeral of `n` to `text`.
fn push_decimal(text: &mut String, n: u32)
    ensures
        final(text)@ == old(text)@ + decimal(n as nat),
    decreases n,
{
    if n >= 10 {
        push_decimal(text, n / 10);
    }
    text.append(digit(n % 10));
    assert(text@ =~= old(text)@ + decimal(n as nat));
}

/// One line of a report: a label and a number.
fn line(label: &str, value: u32) -> (text: String)
    ensures
        text@ == label@ + decimal(value as nat),
{
    let mut text = String::from_str(label);
    push_decimal(&mut text, value);
    text
}

impl Counters {
    /// Counters that have counted nothing.
    pub fn new() -> (counters: Counters)
        ensures
            counters@ == zeroed(),
    {
        let counters = Counters { all: [0; 9], last_depth: [0; 9], this_depth: [0; 9] };
        assert(counters.all@ =~= zeroed().all);
        assert(counters.last_depth@ =~= zeroed().last_depth);
        assert(counters.this_depth@ =~= zeroed().this_depth);
        counters
    }

    /// Sets every counter to zero.
    pub fn clear(&mut self)
        ensures
            final(self)@ == zeroed(),
    {
        *self = Counters::new();
    }

    /// Events of kind `stat` since the counters were last cleared.
    pub fn total(&self, stat: Stat) -> (count: u32)
        ensures
            count == self.all@[stat.index()],
    {
        self.all[stat.to_index()]
    }

    /// Events of kind `stat` at the depth that is being searched.
    pub fn current(&self, stat: Stat) -> (count: u32)
        ensures
            count == self.this_depth@[stat.index()],
    {
        self.this_depth[stat.to_index()]
    }

    /// Events of kind `stat` at the depth that was finished last.
    pub fn previous(&self, stat: Stat) -> (count: u32)
        ensures
            count == self.last_depth@[stat.index()],
    {
        self.last_depth[stat.to_index()]
    }
}

impl Stat {
    /// Position of the kind in the arrays of counters.
    pub open spec fn index(self) -> int {
        match self {
            Stat::NodesEvaluated => 0,
            Stat::TableHits => 1,
            Stat::TableMisses => 2,
            Stat::CheckmatesFound => 3,
            Stat::BranchesCut => 4,
            Stat::PVMisses => 5,
            Stat::TableEvalHits => 6,
            Stat::NNUECacheHits => 7,
            Stat::NNUECacheMisses => 8,
        }
    }

    pub fn to_index(&self) -> (i: usize)
        ensures
            i == self.index(),
            i < LEN,
    {
        match self {
            Stat::NodesEvaluated => 0,
            Stat::TableHits => 1,
            Stat::TableMisses => 2,
            Stat::CheckmatesFound => 3,
            Stat::BranchesCut => 4,
            Stat::PVMisses => 5,
            Stat::TableEvalHits => 6,
            Stat::NNUECacheHits => 7,
            Stat::NNUECacheMisses => 8,
        }
    }

    /// Counts one event of this kind, over all depths and at the current
    /// depth.
    pub fn inc(&self, counters: &mut Counters)
        ensures
            final(counters)@ == bump(old(counters)@, *self),
    {
        let i = self.to_index();
        let all = counters.all[i];
        let this = counters.this_depth[i];
        counters.all[i] = all.wrapping_add(1);
        counters.this_depth[i] = this.wrapping_add(1);
    }

    /// Closes the current depth: its counters become those of the depth
    /// finished last, and start again at zero.
    pub fn next_depth(counters: &mut Counters)
        ensures
            final(counters)@ == rolled(old(counters)@),
    {
        counters.last_depth = counters.this_depth;
        counters.this_depth = [0; 9];
        assert(counters.this_depth@ =~= rolled(old(counters)@).this_depth);
    }

    /// The lines that describe the search so far.
    pub fn log(counters: &Counters) -> (lines: Vec<String>)
        ensures
            texts(lines@) == full_report(counters@),
    {
        let mut lines: Vec<String> = Vec::new();
        lines.push(String::from_str("Eval finished. Statistics for all depths:"));
        let mut all = Self::log_stats(&counters.all);
        lines.append(&mut all);
        lines.push(String::from_str("Eval finished. Statistics for final depth:"));
        let mut last = Self::log_stats(&counters.last_depth);
        lines.append(&mut last);
        assert(texts(lines@) =~= full_report(counters@));
        lines
    }

    /// The lines that describe one set of counters.
    pub fn log_stats(stat: &[u32; 9]) -> (lines: Vec<String>)
        ensures
            texts(lines@) == report(stat@),
    {
        let mut lines: Vec<String> = Vec::new();
        lines.push(line("   Nodes evaluated: ", stat[0]));
        lines.push(line("   Transposition table hits during move evaluation: ", stat[1]));
        lines.push(line("   Transposition table hits during move ordering: ", stat[6]));
        lines.push(line("   Transposition table misses during move evaluation: ", stat[2]));
        lines.push(line("   NNUE cache hits: ", stat[7]));
        lines.push(line("   NNUE cache misses: ", stat[8]));
        lines.push(line("   Checkmates found: ", stat[3]));
        lines.push(line("   Branches pruned: ", stat[4]));
        lines.push(line("   Incorrect PV moves: ", stat[5]));
        assert(texts(lines@) =~= report(stat@));
        lines
    }
}

} // verus!
