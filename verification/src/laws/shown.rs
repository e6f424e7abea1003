//! Texts: what is shown, and what is read.
use crate::address::{IpAddress, SocketAddress};
use crate::cli::report::{cards_text, leader_text, local_rows, node_text, nodes_text, pool_rows, report_text, sdk_rows};
use crate::cli::{bytes_text, client_address, request_for, sdk_text, Query};
use crate::cluster::election::Leadership;
use crate::config::ConfigView;
use crate::double::{double_of, factor, hundredths, nearest};
use crate::error::Error;
use crate::bytes::be_value;
use crate::digest::{hex_bytes, hex_value};
use crate::ids::{hyphenated, uuid_in, Uuid};
use crate::launcher::{embedded, exit_code, is_python, sought, Attempt, Launch, Search, Seek};
use crate::node::capabilities::{NodeCapabilities, NodeView};
use crate::node::gpu::{field, mebibytes, row_of, rows_of, GpuView};
use crate::protocol::memory::LogicalTrainingMemory;
use crate::protocol::request::{ClusterStatus, Request};
use crate::text::{
    decimal, digit, digits_value, digits_within, lower, number_within, pieces, space, to_left, to_right, trim_end,
    trim_start, u64_value, with_hundredths,
};
use vstd::prelude::*;

verus! {

/// A number is shown by its digits: reading them gives it back, and there is no
/// zero before them.
pub proof fn law_numbers_are_shown_by_their_digits(n: nat)
    ensures
        digits_value(decimal(n)) == Some(n),
        decimal(n).len() > 0,
        n > 0 ==> decimal(n)[0] != '0',
        n < 10 ==> decimal(n).len() == 1,
        n >= 10 ==> decimal(n).len() == decimal(n / 10).len() + 1,
    decreases n,
{
    if n < 10 {
        let s = decimal(n);
        assert(s.drop_last() =~= Seq::<char>::empty());
        assert(s.last() == digit(n));
        assert(digits_value(s.drop_last()) == Some(0nat));
    } else {
        law_numbers_are_shown_by_their_digits(n / 10);
        let s = decimal(n);
        assert(s.drop_last() =~= decimal(n / 10));
        assert(s.last() == digit(n % 10));
    }
}

/// What is read is read digit by digit: one more makes ten times the number and
/// the digit, as long as that is within the limit. Nothing is no number, and
/// neither is a letter.
pub proof fn law_numbers_are_read_digit_by_digit(text: Seq<char>, c: char, limit: nat)
    ensures
        number_within(Seq::<char>::empty(), limit) is Err,
        ({
            let d = c as u32 - 48;
            let more = digits_within(text.push(c), limit);
            match digits_within(text, limit) {
                Ok(n) => {
                    &&& more is Ok <==> 0 <= d <= 9 && 10 * n + d <= limit
                    &&& more matches Ok(m) ==> m == 10 * n + d
                },
                Err(_) => more is Err,
            }
        }),
        text.len() > 0 && text[0] == '+' ==> number_within(text.push(c), limit) == digits_within(text.skip(1).push(c), limit),
        text.len() > 0 && text[0] != '+' ==> number_within(text, limit) == digits_within(text, limit),
{
    assert(text.push(c).drop_last() =~= text);
    if text.len() > 0 {
        assert(text.push(c).skip(1) =~= text.skip(1).push(c));
    }
}

proof fn lemma_nearest(n: nat, d: nat)
    requires
        d > 0,
    ensures
        2 * n <= 2 * (d * nearest(n, d)) + d,
        2 * (d * nearest(n, d)) <= 2 * n + d,
{
    let q = n / d;
    let r = n % d;
    assert(n == d * q + r && r < d) by (nonlinear_arith)
        requires
            q == n / d,
            r == n % d,
            d > 0,
    ;
    assert(d * (q + 1) == d * q + d) by (nonlinear_arith);
}

proof fn lemma_factor(n: nat, d: nat)
    requires
        0 < d,
    ensures
        factor(n, d) >= 1,
        d <= n ==> d * factor(n, d) <= n,
        n < 2 * d ==> factor(n, d) == 1,
    decreases n - d,
{
    if 2 * d <= n {
        lemma_factor(n, 2 * d);
        let f = factor(n, 2 * d);
        assert(d * (2 * f) == (2 * d) * f) by (nonlinear_arith);
    }
}

/// A whole number divided is shown to the nearest hundredth.
pub proof fn law_nearest_hundredth(n: nat, d: nat)
    requires
        0 < d <= n,
        n < 0x2000_0000_0000,
    ensures
        2 * (hundredths(n, d) * d) <= 200 * n + d,
        200 * n <= 2 * (hundredths(n, d) * d) + d,
{
    let big: nat = 0x10_0000_0000_0000;
    lemma_factor(n, big);
    lemma_nearest(n, 1);
    assert(double_of(n) == n);
    let f = factor(n, d);
    lemma_factor(n, d);
    assert(d * f > 0) by (nonlinear_arith)
        requires
            d > 0,
            f >= 1,
    ;
    let q = nearest(n * big, d * f);
    lemma_nearest(n * big, d * f);
    let h = nearest(100 * q * f, big);
    lemma_nearest(100 * q * f, big);
    assert(hundredths(n, d) == h);
    let x = d * f * q;
    assert(x == (d * f) * q);
    assert(100 * q * f * d == 100 * x) by (nonlinear_arith)
        requires
            x == d * f * q,
    ;
    assert(2 * (big * h) * d <= 2 * (100 * q * f) * d + big * d) by (nonlinear_arith)
        requires
            2 * (big * h) <= 2 * (100 * q * f) + big,
    ;
    assert(2 * (100 * q * f) * d <= 2 * (big * h) * d + big * d) by (nonlinear_arith)
        requires
            2 * (100 * q * f) <= 2 * (big * h) + big,
    ;
    assert(2 * (100 * q * f) * d == 2 * (100 * x)) by (nonlinear_arith)
        requires
            100 * q * f * d == 100 * x,
    ;
    let hd = h * d;
    assert(2 * (big * h) * d == 2 * (big * hd)) by (nonlinear_arith)
        requires
            hd == h * d,
    ;
    assert(big * d == d * big) by (nonlinear_arith);
}

/// Bytes are shown in the largest unit of which there is a whole one.
pub proof fn law_units_of_bytes(bytes: u64)
    ensures
        ({
            let t = bytes_text(bytes);
            let n = t.len() as int;
            &&& bytes < 1_000 ==> t == decimal(bytes as nat) + " B"@
            &&& 1_000 <= bytes < 1_000_000 ==> t == with_hundredths(hundredths(bytes as nat, 1_000)) + " KB"@
            &&& 1_000_000 <= bytes < 1_000_000_000 ==> t == with_hundredths(hundredths(bytes as nat, 1_000_000)) + " MB"@
            &&& 1_000_000_000 <= bytes < 1_000_000_000_000 ==> t == with_hundredths(
                hundredths(bytes as nat, 1_000_000_000),
            ) + " GB"@
            &&& 1_000_000_000_000 <= bytes ==> t == with_hundredths(hundredths(bytes as nat, 1_000_000_000_000)) + " TB"@
        }),
{
}

/// Hundredths are shown with two digits behind a point.
pub proof fn law_two_digits_behind_a_point(h: nat)
    ensures
        ({
            let t = with_hundredths(h);
            let n = t.len() as int;
            &&& n >= 4
            &&& digits_value(t.take(n - 3)) == Some(h / 100)
            &&& t[n - 3] == '.'
            &&& t[n - 2] as u32 == 48 + h / 10 % 10
            &&& t[n - 1] as u32 == 48 + h % 10
        }),
{
    let t = with_hundredths(h);
    law_numbers_are_shown_by_their_digits(h / 100);
    assert(t.take(t.len() - 3) =~= decimal(h / 100));
}

/// A report is shown for five seconds; then only that it is stale, and without
/// one that it is unknown.
pub proof fn law_reports_are_shown_for_five_seconds(value: u64, other: u64, age: u64)
    ensures
        age > 5_000 ==> sdk_text(Some(value), Some(age)) == sdk_text(Some(other), Some(age)),
        age <= 5_000 ==> sdk_text(Some(value), Some(age)) == bytes_text(value) + " (age "@ + decimal(age as nat) + " ms)"@,
        sdk_text(None, Some(age)) == "UNKNOWN"@,
        sdk_text(Some(value), None) == "UNKNOWN"@,
{
}

/// Columns are filled up with blanks to their width, and nothing is cut off.
pub proof fn law_columns(text: Seq<char>, width: nat, i: int)
    ensures
        to_left(text, width).take(text.len() as int) == text,
        to_right(text, width).skip(to_right(text, width).len() - text.len()) == text,
        text.len() <= width ==> to_left(text, width).len() == width && to_right(text, width).len() == width,
        text.len() > width ==> to_left(text, width) == text && to_right(text, width) == text,
        text.len() <= i < width ==> to_left(text, width)[i] == ' ',
        0 <= i < width - text.len() ==> to_right(text, width)[i] == ' ',
{
    assert(to_left(text, width).take(text.len() as int) =~= text);
    assert(to_right(text, width).skip(to_right(text, width).len() - text.len()) =~= text);
    if text.len() > width {
        assert(to_left(text, width) =~= text);
        assert(to_right(text, width) =~= text);
    }
}

/// A line that begins with a label and ends with a figure, in two columns.
pub open spec fn tells(line: Seq<char>, label: Seq<char>, figure: Seq<char>) -> bool {
    &&& line.len() == 40 + figure.len()
    &&& line.take(label.len() as int) == label
    &&& line.skip(40) == figure
}

proof fn lemma_row(label: Seq<char>, figure: Seq<char>)
    requires
        label.len() <= 39,
    ensures
        tells(to_left(label, 39) + " "@ + figure, label, figure),
{
    reveal_strlit(" ");
    let line = to_left(label, 39) + " "@ + figure;
    assert(to_left(label, 39).len() == 39);
    assert(line.take(label.len() as int) =~= label);
    assert(line.skip(40) =~= figure);
}

/// What the figures of the pool stand for.
pub proof fn law_rows_of_the_pool(m: LogicalTrainingMemory)
    requires
        m.free_vram <= m.physical_vram,
    ensures
        ({
            let r = pool_rows(m);
            &&& r.len() == 12
            &&& tells(r[0], "Cluster physical VRAM (inventory)"@, bytes_text(m.cluster_physical_vram))
            &&& tells(r[1], "GPU driver free (daemon snapshot)"@, bytes_text(m.free_vram))
            &&& tells(r[2], "GPU driver used (daemon snapshot)"@, bytes_text((m.physical_vram - m.free_vram) as u64))
            &&& tells(r[3], "Cluster usable VRAM (inventory)"@, bytes_text(m.cluster_usable_vram))
            &&& tells(r[4], "Primary GPU physical VRAM"@, bytes_text(m.primary_gpu_physical_vram))
            &&& tells(r[5], "Primary GPU usable ceiling"@, bytes_text(m.primary_gpu_usable_vram))
            &&& tells(r[6], "Job backing capacity"@, bytes_text(m.current_job_backing_capacity))
            &&& tells(r[7], "Physical system RAM"@, bytes_text(m.physical_ram))
            &&& tells(r[8], "Pool RAM budget"@, bytes_text(m.pool_ram_budget))
            &&& tells(r[9], "Allocated pool RAM"@, bytes_text(m.allocated_ram))
            &&& tells(r[10], "Currently allocatable pool RAM"@, bytes_text(m.pool_ram_allocatable))
            &&& tells(r[11], "Job remaining logical capacity"@, bytes_text(m.logical_training_capacity))
        }),
{
    reveal_strlit("Cluster physical VRAM (inventory)");
    reveal_strlit("GPU driver free (daemon snapshot)");
    reveal_strlit("GPU driver used (daemon snapshot)");
    reveal_strlit("Cluster usable VRAM (inventory)");
    reveal_strlit("Primary GPU physical VRAM");
    reveal_strlit("Primary GPU usable ceiling");
    reveal_strlit("Job backing capacity");
    reveal_strlit("Physical system RAM");
    reveal_strlit("Pool RAM budget");
    reveal_strlit("Allocated pool RAM");
    reveal_strlit("Currently allocatable pool RAM");
    reveal_strlit("Job remaining logical capacity");
    lemma_row("Cluster physical VRAM (inventory)"@, bytes_text(m.cluster_physical_vram));
    lemma_row("GPU driver free (daemon snapshot)"@, bytes_text(m.free_vram));
    lemma_row("GPU driver used (daemon snapshot)"@, bytes_text((m.physical_vram - m.free_vram) as u64));
    lemma_row("Cluster usable VRAM (inventory)"@, bytes_text(m.cluster_usable_vram));
    lemma_row("Primary GPU physical VRAM"@, bytes_text(m.primary_gpu_physical_vram));
    lemma_row("Primary GPU usable ceiling"@, bytes_text(m.primary_gpu_usable_vram));
    lemma_row("Job backing capacity"@, bytes_text(m.current_job_backing_capacity));
    lemma_row("Physical system RAM"@, bytes_text(m.physical_ram));
    lemma_row("Pool RAM budget"@, bytes_text(m.pool_ram_budget));
    lemma_row("Allocated pool RAM"@, bytes_text(m.allocated_ram));
    lemma_row("Currently allocatable pool RAM"@, bytes_text(m.pool_ram_allocatable));
    lemma_row("Job remaining logical capacity"@, bytes_text(m.logical_training_capacity));
}

/// What the figures of this node stand for.
pub proof fn law_rows_of_this_node(m: LogicalTrainingMemory)
    ensures
        ({
            let r = local_rows(m);
            &&& r.len() == 9
            &&& tells(r[2], "Physical RAM local"@, bytes_text(m.local_physical_ram))
            &&& tells(r[3], "OS available RAM local"@, bytes_text(m.local_os_available_ram))
            &&& tells(r[4], "TrainPool local RAM budget"@, bytes_text(m.local_pool_ram_budget))
            &&& tells(r[5], "TrainPool local RAM used"@, bytes_text(m.local_pool_ram_used))
            &&& tells(r[6], "Local RAM safety reserve"@, bytes_text(m.local_ram_safety_reserve))
            &&& tells(r[7], "TrainPool local RAM allocatable now"@, bytes_text(m.local_pool_ram_allocatable))
            &&& tells(r[8], "TrainPool remote RAM used"@, bytes_text(m.remote_pool_ram_used))
        }),
{
    reveal_strlit("Physical RAM local");
    reveal_strlit("OS available RAM local");
    reveal_strlit("TrainPool local RAM budget");
    reveal_strlit("TrainPool local RAM used");
    reveal_strlit("Local RAM safety reserve");
    reveal_strlit("TrainPool local RAM allocatable now");
    reveal_strlit("TrainPool remote RAM used");
    lemma_row("Physical RAM local"@, bytes_text(m.local_physical_ram));
    lemma_row("OS available RAM local"@, bytes_text(m.local_os_available_ram));
    lemma_row("TrainPool local RAM budget"@, bytes_text(m.local_pool_ram_budget));
    lemma_row("TrainPool local RAM used"@, bytes_text(m.local_pool_ram_used));
    lemma_row("Local RAM safety reserve"@, bytes_text(m.local_ram_safety_reserve));
    lemma_row("TrainPool local RAM allocatable now"@, bytes_text(m.local_pool_ram_allocatable));
    lemma_row("TrainPool remote RAM used"@, bytes_text(m.remote_pool_ram_used));
}

/// What the figures of a training process stand for.
pub proof fn law_rows_of_a_training_process(m: LogicalTrainingMemory)
    ensures
        ({
            let r = sdk_rows(m);
            let age = m.sdk_metrics_age_ms;
            &&& r.len() == 12
            &&& tells(r[2], "GPU physical VRAM"@, sdk_text(m.sdk_physical_vram_bytes, age))
            &&& tells(r[3], "GPU driver used"@, sdk_text(m.driver_used_vram_bytes, age))
            &&& tells(r[4], "GPU driver free"@, sdk_text(m.driver_free_vram_bytes, age))
            &&& tells(r[5], "PyTorch allocated"@, sdk_text(m.torch_allocated_bytes, age))
            &&& tells(r[6], "PyTorch reserved"@, sdk_text(m.torch_reserved_bytes, age))
            &&& tells(r[7], "PyTorch reclaimable"@, sdk_text(m.torch_reclaimable_bytes, age))
            &&& tells(r[8], "TrainPool resident handles"@, sdk_text(m.trainpool_resident_vram_bytes, age))
            &&& tells(r[9], "Safe VRAM allocatable now"@, sdk_text(m.safe_vram_allocatable_bytes, age))
            &&& tells(r[10], "Configured usable VRAM ceiling"@, sdk_text(m.configured_usable_vram_ceiling_bytes, age))
            &&& tells(r[11], "Configured VRAM safety reserve"@, sdk_text(m.configured_vram_safety_reserve_bytes, age))
        }),
{
    let age = m.sdk_metrics_age_ms;
    reveal_strlit("GPU physical VRAM");
    reveal_strlit("GPU driver used");
    reveal_strlit("GPU driver free");
    reveal_strlit("PyTorch allocated");
    reveal_strlit("PyTorch reserved");
    reveal_strlit("PyTorch reclaimable");
    reveal_strlit("TrainPool resident handles");
    reveal_strlit("Safe VRAM allocatable now");
    reveal_strlit("Configured usable VRAM ceiling");
    reveal_strlit("Configured VRAM safety reserve");
    lemma_row("GPU physical VRAM"@, sdk_text(m.sdk_physical_vram_bytes, age));
    lemma_row("GPU driver used"@, sdk_text(m.driver_used_vram_bytes, age));
    lemma_row("GPU driver free"@, sdk_text(m.driver_free_vram_bytes, age));
    lemma_row("PyTorch allocated"@, sdk_text(m.torch_allocated_bytes, age));
    lemma_row("PyTorch reserved"@, sdk_text(m.torch_reserved_bytes, age));
    lemma_row("PyTorch reclaimable"@, sdk_text(m.torch_reclaimable_bytes, age));
    lemma_row("TrainPool resident handles"@, sdk_text(m.trainpool_resident_vram_bytes, age));
    lemma_row("Safe VRAM allocatable now"@, sdk_text(m.safe_vram_allocatable_bytes, age));
    lemma_row("Configured usable VRAM ceiling"@, sdk_text(m.configured_usable_vram_ceiling_bytes, age));
    lemma_row("Configured VRAM safety reserve"@, sdk_text(m.configured_vram_safety_reserve_bytes, age));
}

/// What is shown of the leader: who it is, its weight and its epoch.
pub proof fn law_leader_is_shown(l: Leadership)
    ensures
        ({
            let r = leader_text(l);
            &&& r.len() == 4
            &&& l.leader_id matches Some(id) ==> r[0] == "Leader: "@ + hyphenated(id)
            &&& l.leader_id is None ==> r[0] == "Leader: "@ + "none"@
            &&& r[1] == "Election score: "@ + bytes_text(l.election_score)
            &&& r[3] == "Leader epoch: "@ + hyphenated(l.leader_epoch)
        }),
{
}

/// Small letters: those from A to Z become them, and all else stays.
pub proof fn law_small_letters(text: Seq<char>, i: int)
    requires
        0 <= i < text.len(),
    ensures
        lower(text).len() == text.len(),
        65 <= text[i] as u32 <= 90 ==> lower(text)[i] as u32 == text[i] as u32 + 32,
        !(65 <= text[i] as u32 <= 90) ==> lower(text)[i] == text[i],
{
}

/// Blanks are taken off at both ends, and nothing else.
pub proof fn law_blanks_are_taken_off(text: Seq<char>)
    ensures
        ({
            let s = trim_start(text);
            let e = trim_end(text);
            &&& s.len() <= text.len() && e.len() <= text.len()
            &&& s == text.skip(text.len() - s.len())
            &&& e == text.take(e.len() as int)
            &&& s.len() > 0 ==> !space(s[0])
            &&& e.len() > 0 ==> !space(e.last())
            &&& forall|i: int| 0 <= i < text.len() - s.len() ==> space(#[trigger] text[i])
            &&& forall|i: int| e.len() <= i < text.len() ==> space(#[trigger] text[i])
        }),
{
    lemma_start(text);
    lemma_end(text);
}

proof fn lemma_start(text: Seq<char>)
    ensures
        ({
            let s = trim_start(text);
            &&& s.len() <= text.len()
            &&& s == text.skip(text.len() - s.len())
            &&& s.len() > 0 ==> !space(s[0])
            &&& forall|i: int| 0 <= i < text.len() - s.len() ==> space(#[trigger] text[i])
        }),
    decreases text.len(),
{
    let s = trim_start(text);
    if text.len() > 0 && space(text[0]) {
        let rest = text.skip(1);
        lemma_start(rest);
        assert(rest.skip(rest.len() - s.len()) =~= text.skip(text.len() - s.len()));
        assert forall|i: int| 0 <= i < text.len() - s.len() implies space(#[trigger] text[i]) by {
            if i > 0 {
                assert(rest[i - 1] == text[i]);
            }
        }
    } else {
        assert(text.skip(0) =~= text);
    }
}

proof fn lemma_end(text: Seq<char>)
    ensures
        ({
            let e = trim_end(text);
            &&& e.len() <= text.len()
            &&& e == text.take(e.len() as int)
            &&& e.len() > 0 ==> !space(e.last())
            &&& forall|i: int| e.len() <= i < text.len() ==> space(#[trigger] text[i])
        }),
    decreases text.len(),
{
    let e = trim_end(text);
    if text.len() > 0 && space(text.last()) {
        let rest = text.drop_last();
        lemma_end(rest);
        assert(rest.take(e.len() as int) =~= text.take(e.len() as int));
        assert forall|i: int| e.len() <= i < text.len() implies space(#[trigger] text[i]) by {
            if i < rest.len() {
                assert(rest[i] == text[i]);
            }
        }
    } else {
        assert(text.take(text.len() as int) =~= text);
    }
}

/// A separator begins a new piece, and any other character belongs to the last.
pub proof fn law_pieces(text: Seq<char>, separator: char, c: char)
    ensures
        pieces(Seq::<char>::empty(), separator) == seq![Seq::<char>::empty()],
        pieces(text, separator).len() > 0,
        pieces(text.push(separator), separator) == pieces(text, separator).push(Seq::<char>::empty()),
        c != separator ==> {
            let p = pieces(text, separator);
            let q = pieces(text.push(c), separator);
            &&& q.len() == p.len()
            &&& q.drop_last() == p.drop_last()
            &&& q.last() == p.last().push(c)
        },
{
    lemma_some_piece(text, separator);
    assert(text.push(separator).drop_last() =~= text);
    assert(text.push(c).drop_last() =~= text);
    if c != separator {
        let p = pieces(text, separator);
        let q = pieces(text.push(c), separator);
        assert(q.drop_last() =~= p.drop_last());
    }
}

proof fn lemma_some_piece(text: Seq<char>, separator: char)
    ensures
        pieces(text, separator).len() > 0,
    decreases text.len(),
{
    if text.len() > 0 {
        lemma_some_piece(text.drop_last(), separator);
    }
}

/// A line of the driver's list is a card where it has eight fields, or nine, and
/// its memory is in whole mebibytes; a line that is none adds no card.
pub proof fn law_cards_of_the_driver(line: Seq<char>, lines: Seq<Seq<char>>, n: u64)
    ensures
        n <= 0xfff_ffff_ffff ==> mebibytes(n) == n * 1_048_576,
        row_of(line) is Some <==> {
            let count = pieces(line, ',').len();
            &&& count == 8 || count == 9
            &&& u64_value(field(line, 2)) is Some
            &&& u64_value(field(line, 3)) is Some
            &&& u64_value(field(line, 4)) is Some
        },
        row_of(line) matches Some(r) ==> {
            &&& r.uuid == field(line, 0)
            &&& r.model == field(line, 1)
            &&& r.utilization == field(line, 5)
            &&& r.driver_version == field(line, 6)
            &&& r.temperature == field(line, 7)
            &&& pieces(line, ',').len() == 9 ==> r.cuda_capability == Some(field(line, 8))
            &&& pieces(line, ',').len() == 8 ==> r.cuda_capability is None
            &&& u64_value(field(line, 2))->0 <= 0xfff_ffff_ffff ==> r.vram_total == u64_value(field(line, 2))->0 * 1_048_576
            &&& u64_value(field(line, 3))->0 <= 0xfff_ffff_ffff ==> r.vram_free == u64_value(field(line, 3))->0 * 1_048_576
            &&& u64_value(field(line, 4))->0 <= 0xfff_ffff_ffff ==> r.vram_used == u64_value(field(line, 4))->0 * 1_048_576
        },
        row_of(line) is None ==> rows_of(lines.push(line)) == rows_of(lines),
        row_of(line) matches Some(r) ==> rows_of(lines.push(line)) == rows_of(lines).push(r),
{
    assert(lines.push(line).drop_last() =~= lines);
}

/// A program's own code is passed on; one that a signal ended has 128 and the
/// signal.
pub proof fn law_codes_of_programs(code: Option<i32>, signal: Option<i32>, r: i32)
    requires
        call_ensures(exit_code, (code, signal), r),
        signal matches Some(s) ==> s <= i32::MAX - 128,
    ensures
        code matches Some(c) ==> r == c,
        code is None ==> (signal matches Some(s) ==> r == 128 + s),
        code is None && signal is None ==> r == 129,
{
}

/// Programs named `python`, or beginning with `python3` or `pypy`, in letters of
/// any size, are Python.
pub proof fn law_which_programs_are_python(name: &str, r: bool)
    requires
        call_ensures(is_python, (Some(name),), r),
    ensures
        lower(name@) == "python"@ ==> r,
        "python3"@.is_prefix_of(lower(name@)) ==> r,
        "pypy"@.is_prefix_of(lower(name@)) ==> r,
        r ==> lower(name@).len() >= 4 && lower(name@)[0] == 'p' && lower(name@)[1] == 'y',
        r && lower(name@).len() > 6 && lower(name@)[2] == 't' ==> lower(name@)[6] == '3',
{
    reveal_strlit("python");
    reveal_strlit("python3");
    reveal_strlit("pypy");
    let l = lower(name@);
    if "python3"@.is_prefix_of(l) {
        assert("python3"@ =~= l.subrange(0, 7));
        assert(l.subrange(0, 7)[0] == l[0] && l.subrange(0, 7)[1] == l[1] && l.subrange(0, 7)[6] == l[6]);
    }
    if "pypy"@.is_prefix_of(l) {
        assert("pypy"@ =~= l.subrange(0, 4));
        assert(l.subrange(0, 4)[0] == l[0] && l.subrange(0, 4)[1] == l[1] && l.subrange(0, 4)[2] == l[2]);
    }
}

/// A runtime that is started for a command listens where its daemon would be
/// asked, unless it listens there already.
pub proof fn law_runtime_listens_where_it_is_asked(c: ConfigView, ip: u32, port: u16)
    ensures
        ({
            let address = SocketAddress::V4 { ip, port };
            let z = embedded(c, address);
            let there = c.listen.host().unspecified() && c.listen.door() == port;
            &&& there ==> z == c
            &&& !there ==> z.listen == address && z.advertise_ip == Some(ip)
            &&& z == (ConfigView { listen: z.listen, advertise_ip: z.advertise_ip, ..c })
        }),
{
}

/// A runtime is started only where nobody listens, on this machine. It is given
/// 2.2 seconds to hear of others, where it looks for them, and is asked twenty
/// times, 25 milliseconds apart.
pub proof fn law_search_for_a_plan(a: Launch, z: Launch, attempt: Attempt, r: Result<Seek, Error>)
    requires
        sought(a, z, attempt, r),
    ensures
        r == Ok::<Seek, Error>(Seek::Start) ==> a.search is Knocking && attempt is Failed && a.address.host().loopback(),
        a.search is Asking && attempt is Failed ==> r == Ok::<Seek, Error>(Seek::Knock),
        a.search is Asking && attempt is Worked ==> r == Ok::<Seek, Error>(Seek::Found { started: false }),
        a.search is Starting && attempt is Worked && a.discovery_enabled ==> r == Ok::<Seek, Error>(
            Seek::Ask { after: 2_200 },
        ),
        a.search is Starting && attempt is Worked && !a.discovery_enabled ==> r == Ok::<Seek, Error>(Seek::Ask { after: 0 }),
        a.search matches Search::Waiting { tried } ==> {
            &&& attempt is Worked ==> r == Ok::<Seek, Error>(Seek::Found { started: true })
            &&& attempt is Failed && tried < 19 ==> r == Ok::<Seek, Error>(Seek::Ask { after: 25 }) && z.search
                == (Search::Waiting { tried: (tried + 1) as u32 })
            &&& attempt is Failed && tried >= 19 ==> r is Err
        },
        a.search is Knocking && attempt is Worked ==> r is Err,
        z.address == a.address && z.discovery_enabled == a.discovery_enabled,
{
}

/// A client asks the address that it is given, else the one that its node
/// listens on, which is this machine's own where it is none in particular.
pub proof fn law_whom_a_client_asks(named: Option<SocketAddress>, listen: SocketAddress, r: SocketAddress)
    requires
        call_ensures(client_address, (named, listen), r),
    ensures
        named matches Some(a) ==> r == a,
        named is None ==> {
            &&& listen matches SocketAddress::V4 { ip, port } ==> (ip == 0 ==> r == (SocketAddress::V4 {
                ip: 0x7f00_0001,
                port,
            }))
            &&& listen matches SocketAddress::V6 { ip, port, .. } ==> (ip == 0 ==> r == (SocketAddress::V4 {
                ip: 0x7f00_0001,
                port,
            }))
            &&& listen matches SocketAddress::V4 { ip, port } ==> (ip != 0 ==> r == listen)
            &&& listen matches SocketAddress::V6 { ip, port, .. } ==> (ip != 0 ==> r == listen)
        },
{
}

/// A benchmark is asked for in mebibytes.
pub proof fn law_benchmarks_are_in_mebibytes(mib: usize, r: Result<Request, Error>)
    requires
        call_ensures(request_for, (Query::Benchmark { mib },), r),
    ensures
        r is Ok <==> mib * 1_048_576 <= usize::MAX,
        r matches Ok(q) ==> (q matches Request::Benchmark { bytes } && bytes == mib * 1_048_576),
{
}

/// A node is shown with its name first, in sixteen columns, and whether it
/// leads; its id and its address stand in a line of their own.
pub proof fn law_node_is_shown(n: NodeView, leader: Option<Uuid>, address: Seq<char>)
    requires
        n.hostname.len() <= 16,
    ensures
        ({
            let r = node_text(n, leader, address);
            &&& r.len() == 2
            &&& r[0].take(n.hostname.len() as int) == n.hostname
            &&& leader == Some(n.node_id) ==> r[0].subrange(17, 23) == "leader"@
            &&& leader != Some(n.node_id) ==> r[0].subrange(17, 21) == "peer"@
            &&& r[1] == "  "@ + hyphenated(n.node_id) + "  "@ + address
        }),
{
    reveal_strlit(" ");
    reveal_strlit("leader");
    reveal_strlit("peer");
    let r = node_text(n, leader, address);
    assert(r[0].take(n.hostname.len() as int) =~= n.hostname);
    if leader == Some(n.node_id) {
        assert(r[0].subrange(17, 23) =~= "leader"@);
    } else {
        assert(r[0].subrange(17, 21) =~= "peer"@);
    }
}

/// Every card is shown by its model and all its memory, in their order.
pub proof fn law_cards_are_shown(cards: Seq<GpuView>, n: int)
    requires
        0 < n <= cards.len(),
    ensures
        n == 1 ==> cards_text(cards, n) == cards[0].model + " / "@ + bytes_text(cards[0].vram_total),
        n > 1 ==> cards_text(cards, n) == cards_text(cards, n - 1) + ", "@ + (cards[n - 1].model + " / "@ + bytes_text(
            cards[n - 1].vram_total,
        )),
{
}

/// Nodes are listed in their order, each with its own address.
pub proof fn law_nodes_are_listed(nodes: Seq<NodeCapabilities>, leader: Option<Uuid>, addresses: Seq<String>, k: int)
    requires
        0 <= k < nodes.len(),
        nodes.len() == addresses.len(),
    ensures
        nodes_text(nodes, leader, addresses, k + 1) == nodes_text(nodes, leader, addresses, k) + node_text(
            nodes[k]@,
            leader,
            addresses[k]@,
        ),
        nodes_text(nodes, leader, addresses, 0).len() == 1,
{
}

/// What a question is answered with: the nodes, the leader, the memory, or all
/// of them in this order.
pub proof fn law_parts_of_a_report(status: ClusterStatus, addresses: Seq<String>)
    ensures
        report_text(Query::Status, status, addresses) == report_text(Query::Nodes, status, addresses) + report_text(
            Query::Leader,
            status,
            addresses,
        ) + report_text(Query::Memory, status, addresses),
        report_text(Query::Leader, status, addresses) == leader_text(status.leadership),
        report_text(Query::Memory, status, addresses).take(12) == pool_rows(status.logical_memory),
        report_text(Query::Memory, status, addresses).subrange(12, 21) == local_rows(status.logical_memory),
        report_text(Query::Memory, status, addresses).subrange(21, 33) == sdk_rows(status.logical_memory),
        report_text(Query::Memory, status, addresses).len() == 35,
        nodes_text(status.nodes@, status.leadership.leader_id, addresses, 0).len() == 1,
{
    let m = report_text(Query::Memory, status, addresses);
    assert(m.take(12) =~= pool_rows(status.logical_memory));
    assert(m.subrange(12, 21) =~= local_rows(status.logical_memory));
    assert(m.subrange(21, 33) =~= sdk_rows(status.logical_memory));
}

/// Digits of either size stand for the same number.
pub proof fn law_digits_of_either_size(c: char)
    ensures
        ({
            let n = c as u32;
            &&& 48 <= n <= 57 ==> hex_value(c) == Some((n - 48) as nat)
            &&& 97 <= n <= 102 ==> hex_value(c) == Some((n - 87) as nat)
            &&& 65 <= n <= 70 ==> hex_value(c) == Some((n - 55) as nat)
            &&& !(48 <= n <= 57 || 97 <= n <= 102 || 65 <= n <= 70) ==> hex_value(c) is None
        }),
{
}

/// A number of the driver is read where it has digits alone, after one sign at
/// most, and 64 bits hold it.
pub proof fn law_numbers_of_the_driver(text: Seq<char>)
    ensures
        text.len() > 0 && text[0] != '+' ==> (u64_value(text) is Some <==> digits_value(text) is Some && digits_value(text)->0
            <= 0xffff_ffff_ffff_ffff),
        text.len() > 0 && text[0] == '+' ==> (u64_value(text) is Some <==> text.len() > 1 && digits_value(text.skip(1)) is Some
            && digits_value(text.skip(1))->0 <= 0xffff_ffff_ffff_ffff),
        text.len() > 0 && text[0] != '+' ==> (u64_value(text) matches Some(n) ==> digits_value(text) == Some(n as nat)),
        text.len() == 0 ==> u64_value(text) is None,
{
}

/// An identifier is read in four forms: with hyphens, without them, in braces,
/// and behind its scheme in letters of any size.
pub proof fn law_forms_of_an_identifier(text: Seq<char>, plain: Seq<char>, scheme: Seq<char>)
    requires
        text.len() == 36,
        plain.len() == 32,
        scheme.len() == 9,
        lower(scheme) == "urn:uuid:"@,
    ensures
        uuid_in(seq!['{'] + text + seq!['}']) == uuid_in(text),
        uuid_in(scheme + text) == uuid_in(text),
        hex_bytes(plain) matches Some(bytes) ==> uuid_in(plain) == Some(be_value(bytes) as u128),
        hex_bytes(plain) is None ==> uuid_in(plain) is None,
        text[8] != '-' || text[13] != '-' || text[18] != '-' || text[23] != '-' ==> uuid_in(text) is None,
{
    let braced = seq!['{'] + text + seq!['}'];
    assert(braced.subrange(1, 37) =~= text);
    let named = scheme + text;
    assert(named.take(9) =~= scheme);
    assert(named.skip(9) =~= text);
}

/// An address of either family has the port that it is given.
pub proof fn law_addresses_with_ports(ip: u32, six: u128, port: u16)
    ensures
        (IpAddress::V4 { ip }).at(port) == (SocketAddress::V4 { ip, port }),
        (IpAddress::V6 { ip: six }).at(port) == (SocketAddress::V6 { ip: six, port, flowinfo: 0, scope_id: 0 }),
{
}

/// Blanks among the first 128 characters are the tab, the ends of lines and
/// pages, and the space; beyond them those that Unicode names.
pub proof fn law_which_characters_are_blanks(c: char)
    ensures
        ({
            let n = c as u32;
            &&& n < 128 ==> (space(c) <==> n == 9 || n == 10 || n == 11 || n == 12 || n == 13 || n == 32)
            &&& 128 <= n < 0x2000 ==> (space(c) <==> n == 0x85 || n == 0xa0 || n == 0x1680)
            &&& 0x2000 <= n < 0x2028 ==> (space(c) <==> n < 0x200b)
            &&& n >= 0x2028 ==> (space(c) <==> n == 0x2028 || n == 0x2029 || n == 0x202f || n == 0x205f || n == 0x3000)
        }),
{
}

} // verus!
