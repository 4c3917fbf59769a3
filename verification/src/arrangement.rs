//! Bar-grid helpers shared by the activity inference and the arrangement
//! document: 8-bar blocks, grid rows, style names and track length.

use vstd::prelude::*;

verus! {

/// Number of 8-bar blocks that cover `bars` bars (the last block may be
/// shorter).
pub open spec fn block_count(bars: nat) -> nat {
    (bars + 7) / 8
}

/// First bar of block `i` of a section starting at `start_bar`.
pub open spec fn block_start(start_bar: int, i: int) -> int {
    start_bar + 8 * i
}

/// Bar after the last bar of block `i` of a section starting at `start_bar`
/// and spanning `bars` bars: eight bars on, or the end of the section.
pub open spec fn block_end(start_bar: int, bars: int, i: int) -> int {
    if start_bar + 8 * i + 8 <= start_bar + bars { start_bar + 8 * i + 8 } else { start_bar + bars }
}

/// Number of 8-bar grid cells for a section of `bars` bars.
pub fn blocks_for_bars(bars: u32) -> (n: usize)
    ensures
        n == block_count(bars as nat),
        n * 8 >= bars,
        n * 8 < bars + 8,
{
    ((bars as u64 + 7) / 8) as usize
}

/// The 8-bar blocks of a section that starts at bar `start_bar` and spans
/// `bars` bars: block `i` starts at `start_bar + 8 i` and ends (exclusive) 8
/// bars later or at the end of the section, whichever comes first.
pub fn section_blocks(start_bar: u32, bars: u32) -> (blocks: Vec<(u64, u64)>)
    ensures
        blocks.len() == block_count(bars as nat),
        forall|i: int| 0 <= i < blocks.len() ==> {
            &&& (#[trigger] blocks@[i]).0 == block_start(start_bar as int, i)
            &&& blocks@[i].1 == block_end(start_bar as int, bars as int, i)
        },
{
    let n = blocks_for_bars(bars);
    let end = start_bar as u64 + bars as u64;
    let mut blocks: Vec<(u64, u64)> = Vec::new();
    let mut i: usize = 0;
    while i < n
        invariant
            n == block_count(bars as nat),
            n * 8 < bars + 8,
            end == start_bar + bars,
            i <= n,
            blocks.len() == i,
            forall|j: int| 0 <= j < i ==> {
                &&& (#[trigger] blocks@[j]).0 == block_start(start_bar as int, j)
                &&& blocks@[j].1 == block_end(start_bar as int, bars as int, j)
            },
        decreases n - i,
    {
        let block_start = start_bar as u64 + 8 * (i as u64);
        let block_end = if block_start + 8 <= end { block_start + 8 } else { end };
        blocks.push((block_start, block_end));
        i = i + 1;
    }
    blocks
}

/// The blocks of a section cover it exactly: they follow each other without
/// gaps, the first starts with the section, the last ends with it, and every
/// block is between one and eight bars long.
pub proof fn law_blocks_partition_section(start_bar: int, bars: int, blocks: Seq<(u64, u64)>)
    requires
        bars > 0,
        blocks.len() == block_count(bars as nat),
        forall|i: int| 0 <= i < blocks.len() ==> {
            &&& (#[trigger] blocks[i]).0 == block_start(start_bar, i)
            &&& blocks[i].1 == block_end(start_bar, bars, i)
        },
    ensures
        blocks.len() > 0,
        blocks[0].0 == start_bar,
        blocks[blocks.len() - 1].1 == start_bar + bars,
        forall|i: int| 0 <= i < blocks.len() - 1 ==> (#[trigger] blocks[i]).1 == blocks[i + 1].0,
        forall|i: int| 0 <= i < blocks.len() ==> (#[trigger] blocks[i]).0 < blocks[i].1 <= blocks[i].0 + 8,
{
    let n = blocks.len() as int;
    assert(n * 8 >= bars && n * 8 < bars + 8);
    assert forall|i: int| 0 <= i < blocks.len() - 1 implies (#[trigger] blocks[i]).1 == blocks[i + 1].0 by {
        assert(start_bar + 8 * i + 8 <= start_bar + bars);
    }
    let last = n - 1;
    assert(blocks[last].1 == start_bar + bars);
}

/// Length of a track in bars, from its last section (start bar and length):
/// the last bar of that section, and at least 16; 16 when there are no
/// sections.
pub open spec fn total_bars_of(last_section: Option<(u32, u32)>) -> int {
    match last_section {
        Some((start_bar, bars)) => if start_bar + bars - 1 >= 16 { start_bar + bars - 1 } else { 16 },
        None => 16,
    }
}

/// Total bars of an arrangement (see `total_bars_of`).
pub fn total_bars(last_section: Option<(u32, u32)>) -> (total: u32)
    requires
        last_section matches Some((start_bar, bars)) ==> 1 <= start_bar + bars <= u32::MAX,
    ensures
        total == total_bars_of(last_section),
{
    let last_bar = match last_section {
        Some((start_bar, bars)) => start_bar as u64 + bars as u64 - 1,
        None => 16,
    };
    if last_bar >= 16 { last_bar as u32 } else { 16 }
}

/// A track spans at least 16 bars and at least up to the last bar of its last
/// section, and no more than the larger of the two.
pub proof fn law_total_bars_cover_last_section(start_bar: u32, bars: u32)
    ensures
        total_bars_of(None) == 16,
        total_bars_of(Some((start_bar, bars))) >= 16,
        total_bars_of(Some((start_bar, bars))) >= start_bar + bars - 1,
        total_bars_of(Some((start_bar, bars))) == 16
            || total_bars_of(Some((start_bar, bars))) == start_bar + bars - 1,
{
}

/// The grid rows of a techno arrangement.
pub open spec fn techno_rows() -> Seq<Seq<char>> {
    seq!["Kick"@, "Sub/Bass"@, "Perc/Hats"@, "Mid/Lead"@, "Pads/Strings"@, "Vox"@, "FX/Risers"@]
}

/// The grid rows of a progressive-house arrangement.
pub open spec fn prog_house_rows() -> Seq<Seq<char>> {
    seq!["Kick"@, "Sub/Bass"@, "Pluck/Arp"@, "Mid/Lead"@, "Pads/Strings"@, "Vox"@, "Perc/Hats"@, "FX/Risers"@]
}

/// The rows of inferred element activity for an analysed track.
pub open spec fn activity_row_names() -> Seq<Seq<char>> {
    seq!["Kick"@, "Sub/Bass"@, "Pads/Strings"@, "Perc/Hats"@, "Mid/Lead"@, "FX/Risers"@]
}

/// The texts of a vector of strings.
pub open spec fn string_texts(v: Seq<String>) -> Seq<Seq<char>> {
    v.map_values(|s: String| s@)
}

/// The grid rows of an arrangement: techno rows for a techno track,
/// progressive-house rows otherwise.
pub fn grid_rows(is_techno: bool) -> (rows: Vec<String>)
    ensures
        string_texts(rows@) == if is_techno { techno_rows() } else { prog_house_rows() },
{
    let mut rows: Vec<String> = Vec::new();
    rows.push("Kick".to_owned());
    rows.push("Sub/Bass".to_owned());
    if is_techno {
        rows.push("Perc/Hats".to_owned());
        rows.push("Mid/Lead".to_owned());
        rows.push("Pads/Strings".to_owned());
        rows.push("Vox".to_owned());
        rows.push("FX/Risers".to_owned());
        assert(string_texts(rows@) =~= techno_rows());
    } else {
        rows.push("Pluck/Arp".to_owned());
        rows.push("Mid/Lead".to_owned());
        rows.push("Pads/Strings".to_owned());
        rows.push("Vox".to_owned());
        rows.push("Perc/Hats".to_owned());
        rows.push("FX/Risers".to_owned());
        assert(string_texts(rows@) =~= prog_house_rows());
    }
    rows
}

/// The rows of inferred element activity, in grid order.
pub fn activity_rows() -> (rows: Vec<String>)
    ensures
        string_texts(rows@) == activity_row_names(),
{
    let mut rows: Vec<String> = Vec::new();
    rows.push("Kick".to_owned());
    rows.push("Sub/Bass".to_owned());
    rows.push("Pads/Strings".to_owned());
    rows.push("Perc/Hats".to_owned());
    rows.push("Mid/Lead".to_owned());
    rows.push("FX/Risers".to_owned());
    assert(string_texts(rows@) =~= activity_row_names());
    rows
}

/// The style name of an arrangement: `techno` or `prog_house`.
pub fn style_name(is_techno: bool) -> (name: &'static str)
    ensures
        name@ == if is_techno { "techno"@ } else { "prog_house"@ },
{
    if is_techno { "techno" } else { "prog_house" }
}

/// The title of the arrangement document of an analysed file.
pub fn analysis_title(filename: &str) -> (title: String)
    ensures
        title@ == "Analysis: "@ + filename@,
{
    let mut title = "Analysis: ".to_owned();
    title.append(filename);
    title
}

/// The placeholder activity of a section in a fresh arrangement document:
/// intensity 2 in each of its 8-bar cells.
pub fn placeholder_activity(bars: u32) -> (cells: Vec<u32>)
    ensures
        cells.len() == block_count(bars as nat),
        forall|i: int| 0 <= i < cells.len() ==> cells@[i] == 2,
{
    let n = blocks_for_bars(bars);
    let mut cells: Vec<u32> = Vec::new();
    let mut i: usize = 0;
    while i < n
        invariant
            i <= n,
            cells.len() == i,
            forall|j: int| 0 <= j < i ==> cells@[j] == 2,
        decreases n - i,
    {
        cells.push(2);
        i = i + 1;
    }
    cells
}

} // verus!
