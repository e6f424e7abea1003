//! Graphics processors.
use crate::config::{text_view, MIB};
use crate::double::Double;
use crate::node::memory::{beyond, least, most};
use crate::text::{
    char_views, characters, copy_text, parse_u64, pieces, split, text_of, trim, trim_end, trim_start, u64_value,
};
use vstd::prelude::*;

verus! {

/// One graphics processor.
#[derive(Clone, Debug)]
pub struct GpuCapabilities {
    pub uuid: String,
    pub model: String,
    pub vram_total: u64,
    pub vram_free: u64,
    pub vram_used: u64,
    pub usable_vram: u64,
    pub trainpool_allocated_vram: u64,
    pub utilization: Option<Double>,
    pub cuda_capability: Option<String>,
    pub driver_version: String,
    pub temperature: Option<Double>,
}

/// The model of [`GpuCapabilities`].
pub struct GpuView {
    pub uuid: Seq<char>,
    pub model: Seq<char>,
    pub vram_total: u64,
    pub vram_free: u64,
    pub vram_used: u64,
    pub usable_vram: u64,
    pub trainpool_allocated_vram: u64,
    pub utilization: Option<Double>,
    pub cuda_capability: Option<Seq<char>>,
    pub driver_version: Seq<char>,
    pub temperature: Option<Double>,
}

impl View for GpuCapabilities {
    type V = GpuView;

    open spec fn view(&self) -> GpuView {
        GpuView {
            uuid: self.uuid@,
            model: self.model@,
            vram_total: self.vram_total,
            vram_free: self.vram_free,
            vram_used: self.vram_used,
            usable_vram: self.usable_vram,
            trainpool_allocated_vram: self.trainpool_allocated_vram,
            utilization: self.utilization,
            cuda_capability: text_view(self.cuda_capability),
            driver_version: self.driver_version@,
            temperature: self.temperature,
        }
    }
}

impl GpuCapabilities {
    /// An equal copy.
    pub fn duplicate(&self) -> (r: Self)
        ensures
            r@ == self@,
    {
        GpuCapabilities {
            uuid: self.uuid.clone(),
            model: self.model.clone(),
            vram_total: self.vram_total,
            vram_free: self.vram_free,
            vram_used: self.vram_used,
            usable_vram: self.usable_vram,
            trainpool_allocated_vram: self.trainpool_allocated_vram,
            utilization: self.utilization,
            cuda_capability: copy_text(&self.cuda_capability),
            driver_version: self.driver_version.clone(),
            temperature: self.temperature,
        }
    }
}

/// The models of several.
pub open spec fn gpu_capabilities_views(s: Seq<GpuCapabilities>) -> Seq<GpuView> {
    s.map_values(|x: GpuCapabilities| x@)
}

/// Equal copies of several.
pub fn copy_gpu_capabilities(items: &Vec<GpuCapabilities>) -> (r: Vec<GpuCapabilities>)
    ensures
        gpu_capabilities_views(r@) == gpu_capabilities_views(items@),
{
    let mut r: Vec<GpuCapabilities> = Vec::new();
    let mut i: usize = 0;
    while i < items.len()
        invariant
            i <= items@.len(),
            r@.len() == i,
            forall|k: int| 0 <= k < i ==> (#[trigger] r@[k])@ == items@[k]@,
        decreases items@.len() - i,
    {
        r.push(items[i].duplicate());
        i = i + 1;
    }
    assert(gpu_capabilities_views(r@) =~= gpu_capabilities_views(items@));
    r
}

impl Default for GpuCapabilities {
    fn default() -> (r: Self)
        ensures
            r@ == (GpuView {
                uuid: Seq::empty(),
                model: Seq::empty(),
                vram_total: 0,
                vram_free: 0,
                vram_used: 0,
                usable_vram: 0,
                trainpool_allocated_vram: 0,
                utilization: None,
                cuda_capability: None,
                driver_version: Seq::empty(),
                temperature: None,
            }),
    {
        GpuCapabilities {
            uuid: String::new(),
            model: String::new(),
            vram_total: 0,
            vram_free: 0,
            vram_used: 0,
            usable_vram: 0,
            trainpool_allocated_vram: 0,
            utilization: None,
            cuda_capability: None,
            driver_version: String::new(),
            temperature: None,
        }
    }
}

/// The most that the share of a large card adds to the reserve: 256 MiB.
pub const SHARE_LIMIT: u64 = 268_435_456;

/// What a job may use of the free memory of a card: all but the reserve. That
/// is a fixed one, or a share of the card where that is larger; the share grows
/// with the card up to a limit.
pub open spec fn vram_left(free: u64, reserve: u64, share: u64) -> int {
    beyond(free as int, most(reserve as int, least(share as int, SHARE_LIMIT as int)))
}

/// What a job may use of the free memory of a card.
pub fn usable_vram(free: u64, reserve: u64, share: u64) -> (r: u64)
    ensures
        r == vram_left(free, reserve, share),
{
    let part: u64 = if share <= SHARE_LIMIT {
        share
    } else {
        SHARE_LIMIT
    };
    free.saturating_sub(
        if reserve >= part {
            reserve
        } else {
            part
        },
    )
}

/// A card as the driver's tool lists it. The last three fields are numbers with
/// a fraction, or say that there is none.
#[derive(Clone, Debug)]
pub struct GpuRow {
    pub uuid: String,
    pub model: String,
    pub vram_total: u64,
    pub vram_free: u64,
    pub vram_used: u64,
    pub driver_version: String,
    pub utilization: String,
    pub temperature: String,
    pub cuda_capability: Option<String>,
}

/// The model of a [`GpuRow`].
pub struct GpuRowView {
    pub uuid: Seq<char>,
    pub model: Seq<char>,
    pub vram_total: u64,
    pub vram_free: u64,
    pub vram_used: u64,
    pub driver_version: Seq<char>,
    pub utilization: Seq<char>,
    pub temperature: Seq<char>,
    pub cuda_capability: Option<Seq<char>>,
}

impl View for GpuRow {
    type V = GpuRowView;

    open spec fn view(&self) -> GpuRowView {
        GpuRowView {
            uuid: self.uuid@,
            model: self.model@,
            vram_total: self.vram_total,
            vram_free: self.vram_free,
            vram_used: self.vram_used,
            driver_version: self.driver_version@,
            utilization: self.utilization@,
            temperature: self.temperature@,
            cuda_capability: text_view(self.cuda_capability),
        }
    }
}

/// A field of a line: the piece between two commas, without the space around it.
pub open spec fn field(line: Seq<char>, i: int) -> Seq<char> {
    trim_end(trim_start(pieces(line, ',')[i]))
}

/// Mebibytes in bytes, begun again at zero beyond 64 bits.
pub open spec fn mebibytes(n: u64) -> u64 {
    ((n * MIB) % 0x1_0000_0000_0000_0000) as u64
}

/// What a line says of a card, if it has eight or nine fields and the sizes are
/// numbers.
pub open spec fn row_of(line: Seq<char>) -> Option<GpuRowView> {
    let count = pieces(line, ',').len();
    if count != 8 && count != 9 || u64_value(field(line, 2)) is None || u64_value(field(line, 3)) is None
        || u64_value(field(line, 4)) is None {
        None
    } else {
        Some(
            GpuRowView {
                uuid: field(line, 0),
                model: field(line, 1),
                vram_total: mebibytes(u64_value(field(line, 2))->0),
                vram_free: mebibytes(u64_value(field(line, 3))->0),
                vram_used: mebibytes(u64_value(field(line, 4))->0),
                driver_version: field(line, 6),
                utilization: field(line, 5),
                temperature: field(line, 7),
                cuda_capability: if count == 9 {
                    Some(field(line, 8))
                } else {
                    None
                },
            },
        )
    }
}

/// The cards of several lines, without the lines that say nothing of one.
pub open spec fn rows_of(lines: Seq<Seq<char>>) -> Seq<GpuRowView>
    decreases lines.len(),
{
    if lines.len() == 0 {
        Seq::empty()
    } else {
        match row_of(lines.last()) {
            Some(row) => rows_of(lines.drop_last()).push(row),
            None => rows_of(lines.drop_last()),
        }
    }
}

/// The models of several rows.
pub open spec fn row_views(s: Seq<GpuRow>) -> Seq<GpuRowView> {
    s.map_values(|x: GpuRow| x@)
}

fn megabytes(n: u64) -> (r: u64)
    ensures
        r == mebibytes(n),
{
    n.wrapping_mul(MIB)
}

fn parse_line(line: &Vec<char>) -> (r: Option<GpuRow>)
    ensures
        match r {
            Some(row) => row_of(line@) == Some(row@),
            None => row_of(line@) is None,
        },
{
    let parts: Vec<Vec<char>> = split(line, ',');
    let count: usize = parts.len();
    let ghost all = pieces(line@, ',');
    proof {
        assert(char_views(parts@).len() == count);
        assert forall|i: int| 0 <= i < count implies (#[trigger] parts@[i])@ == all[i] by {
            assert(char_views(parts@)[i] == parts@[i]@);
        }
    }
    if count != 8 && count != 9 {
        return None;
    }
    let total: Vec<char> = trim(&parts[2]);
    let free: Vec<char> = trim(&parts[3]);
    let used: Vec<char> = trim(&parts[4]);
    match (parse_u64(&total), parse_u64(&free), parse_u64(&used)) {
        (Some(total), Some(free), Some(used)) => {
            let cuda_capability: Option<String> = if count == 9 {
                Some(text_of(&trim(&parts[8])))
            } else {
                None
            };
            Some(
                GpuRow {
                    uuid: text_of(&trim(&parts[0])),
                    model: text_of(&trim(&parts[1])),
                    vram_total: megabytes(total),
                    vram_free: megabytes(free),
                    vram_used: megabytes(used),
                    driver_version: text_of(&trim(&parts[6])),
                    utilization: text_of(&trim(&parts[5])),
                    temperature: text_of(&trim(&parts[7])),
                    cuda_capability,
                },
            )
        },
        _ => None,
    }
}

/// The cards that the driver's tool lists, one to a line of comma-separated
/// fields; other lines are passed over.
pub fn parse_csv(output: &str) -> (r: Vec<GpuRow>)
    ensures
        row_views(r@) == rows_of(pieces(output@, '\n')),
{
    let text: Vec<char> = characters(output);
    let lines: Vec<Vec<char>> = split(&text, '\n');
    let ghost all = pieces(output@, '\n');
    let mut r: Vec<GpuRow> = Vec::new();
    let mut i: usize = 0;
    proof {
        assert(char_views(lines@).len() == lines@.len());
        assert(row_views(r@) =~= rows_of(all.take(0)));
    }
    while i < lines.len()
        invariant
            i <= lines@.len(),
            all == char_views(lines@),
            row_views(r@) == rows_of(all.take(i as int)),
        decreases lines@.len() - i,
    {
        let ghost before = r@;
        proof {
            assert(all.take(i + 1).drop_last() =~= all.take(i as int));
            assert(all.take(i + 1).last() == lines@[i as int]@);
        }
        match parse_line(&lines[i]) {
            Some(row) => {
                let ghost shown = row@;
                r.push(row);
                proof {
                    assert(row_views(r@) =~= row_views(before).push(shown));
                }
            },
            None => {},
        }
        i = i + 1;
    }
    proof {
        assert(all.take(i as int) =~= all);
    }
    r
}

/// The card of a row, once its fractions are read: `share` is the part of its
/// memory that is kept back, and the capability counts only where it is a number.
pub open spec fn card_of(
    row: GpuRowView,
    reserve: u64,
    share: u64,
    utilization: Option<Double>,
    temperature: Option<Double>,
    capable: bool,
) -> GpuView {
    GpuView {
        uuid: row.uuid,
        model: row.model,
        vram_total: row.vram_total,
        vram_free: row.vram_free,
        vram_used: row.vram_used,
        usable_vram: vram_left(row.vram_free, reserve, share) as u64,
        trainpool_allocated_vram: 0,
        utilization,
        cuda_capability: if capable {
            row.cuda_capability
        } else {
            None
        },
        driver_version: row.driver_version,
        temperature,
    }
}

impl GpuRow {
    /// The card of this row.
    pub fn into_card(
        self,
        reserve: u64,
        share: u64,
        utilization: Option<Double>,
        temperature: Option<Double>,
        capable: bool,
    ) -> (r: GpuCapabilities)
        ensures
            r@ == card_of(self@, reserve, share, utilization, temperature, capable),
    {
        GpuCapabilities {
            uuid: self.uuid,
            model: self.model,
            vram_total: self.vram_total,
            vram_free: self.vram_free,
            vram_used: self.vram_used,
            usable_vram: usable_vram(self.vram_free, reserve, share),
            trainpool_allocated_vram: 0,
            utilization,
            cuda_capability: if capable {
                self.cuda_capability
            } else {
                None
            },
            driver_version: self.driver_version,
            temperature,
        }
    }
}

} // verus!
