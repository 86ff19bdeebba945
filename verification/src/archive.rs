//! Building the archive files of one backup cycle.
//!
//! A `BackupUnit` is one top-level directory under the data root,
//! carried here as its name and the files found beneath it. The Single
//! strategy appends every unit into one archive stream; the Multiple
//! strategy produces one archive per unit. Archive bytes are composed
//! by the verified tar writer and compressed through the configured
//! codec; the application writes the resulting files to disk and
//! applies the computed mode.

use vstd::prelude::*;
use vstd::string::StrSliceExecFns;
use vstd::utf8::encode_utf8;

use crate::compress::{compress, decode_of, decompress};
use crate::configuration::{permission_mode, ArchiveCompression, ArchiveStrategy, Configuration};
use crate::error::Error;
use crate::tar::{
    archive_size, build_archive, entries_size, entry_views, parse_archive, parse_tar, tar_bytes,
    wf_entries, TarEntry, TarEntryView,
};
use crate::text::{pad_dec_chars, push_dec_padded};

verus! {

/// One top-level directory under the data root: its name and the files
/// beneath it, each with its path relative to the directory.
pub struct BackupUnit {
    pub name: String,
    pub entries: Vec<TarEntry>,
}

/// One archive file to be written: its name within the backup
/// directory, its bytes, and the file mode to apply once written.
pub struct ArchiveOutput {
    pub file_name: String,
    pub bytes: Vec<u8>,
    pub mode: u32,
}

/// The archive entries of one unit: each file, under the unit's name
/// followed by a slash.
pub open spec fn unit_entry_views(u: BackupUnit) -> Seq<TarEntryView> {
    u.entries@.map_values(
        |e: TarEntry| TarEntryView {
            name: encode_utf8(u.name@) + seq![47u8] + e.name@,
            data: e.data@,
        },
    )
}

/// The archive entries of a sequence of units, in order.
pub open spec fn units_entry_views(us: Seq<BackupUnit>) -> Seq<TarEntryView>
    decreases us.len(),
{
    if us.len() == 0 {
        Seq::empty()
    } else {
        unit_entry_views(us[0]) + units_entry_views(us.drop_first())
    }
}

/// A unit whose archive entries are all well-formed tar entries.
pub open spec fn wf_unit(u: BackupUnit) -> bool {
    wf_entries(unit_entry_views(u))
}

/// Whether every unit is well-formed.
pub open spec fn wf_units(us: Seq<BackupUnit>) -> bool {
    forall|i: int| 0 <= i < us.len() ==> wf_unit(#[trigger] us[i])
}

/// The tar entries of one unit, with the unit name prefixed.
fn prefixed_entries(unit: &BackupUnit) -> (out: Vec<TarEntry>)
    ensures
        entry_views(out@) == unit_entry_views(*unit),
{
    let prefix: Vec<u8> = unit.name.as_str().as_bytes_vec();
    let mut out: Vec<TarEntry> = Vec::new();
    let mut i: usize = 0;
    while i < unit.entries.len()
        invariant
            i <= unit.entries@.len(),
            prefix@ == encode_utf8(unit.name@),
            entry_views(out@) == unit_entry_views(*unit).take(i as int),
        decreases unit.entries@.len() - i,
    {
        let e = &unit.entries[i];
        let mut name: Vec<u8> = Vec::new();
        name.extend_from_slice(prefix.as_slice());
        name.push(47);
        name.extend_from_slice(e.name.as_slice());
        let mut data: Vec<u8> = Vec::new();
        data.extend_from_slice(e.data.as_slice());
        proof {
            assert(name@ =~= encode_utf8(unit.name@) + seq![47u8] + e.name@);
            assert(data@ =~= e.data@);
        }
        let entry = TarEntry { name, data };
        proof {
            assert(entry@.name == encode_utf8(unit.name@) + seq![47u8] + e.name@);
            assert(entry@.data == e.data@);
            assert(unit_entry_views(*unit)[i as int] == TarEntryView {
                name: encode_utf8(unit.name@) + seq![47u8] + unit.entries@[i as int].name@,
                data: unit.entries@[i as int].data@,
            });
            assert(entry@ == unit_entry_views(*unit)[i as int]);
        }
        let ghost prev = out@;
        let ghost ev = entry@;
        out.push(entry);
        proof {
            assert(entry_views(prev).len() == prev.len());
            assert(prev.len() == i);
            assert(out@ == prev.push(out@.last()));
            assert(out@.last()@ == ev);
            assert forall|j: int| 0 <= j < i + 1 implies entry_views(out@)[j]
                == unit_entry_views(*unit).take(i + 1)[j] by {
                assert(entry_views(out@)[j] == out@[j]@);
                if j < i {
                    assert(out@[j] == prev[j]);
                    assert(entry_views(prev)[j] == prev[j]@);
                    assert(entry_views(prev)[j] == unit_entry_views(*unit).take(i as int)[j]);
                } else {
                    assert(out@[j]@ == ev);
                }
            }
            assert(entry_views(out@) =~= unit_entry_views(*unit).take(i + 1));
        }
        i = i + 1;
    }
    proof {
        assert(unit_entry_views(*unit).take(unit.entries@.len() as int) =~= unit_entry_views(
            *unit,
        ));
    }
    out
}

/// Whether the unit's archive entries all fit the tar writer, per
/// `wf_unit`: the application checks this before asking for archives.
pub fn check_unit(u: &BackupUnit) -> (r: bool)
    ensures
        r == wf_unit(*u),
{
    let entries = prefixed_entries(u);
    crate::tar::check_entries(&entries)
}

/// Whether the archives the configured strategy would build fit the
/// machine's address space: the application checks this, with
/// `check_unit`, before asking for them.
#[verifier::loop_isolation(false)]
pub fn units_fit(units: &Vec<BackupUnit>, strategy: &ArchiveStrategy) -> (r: bool)
    requires
        wf_units(units@),
    ensures
        strategy is Single ==> r == (entries_size(units_entry_views(units@)) + 1024
            <= usize::MAX),
        strategy is Multiple ==> r == (forall|i: int|
            0 <= i < units@.len() ==> entries_size(unit_entry_views(#[trigger] units@[i])) + 1024
                <= usize::MAX),
{
    match strategy {
        ArchiveStrategy::Single => {
            let mut entries: Vec<TarEntry> = Vec::new();
            let mut k: usize = 0;
            while k < units.len()
                invariant
                    k <= units@.len(),
                    entry_views(entries@) == units_entry_views(units@.take(k as int)),
                decreases units@.len() - k,
            {
                let mut pe = prefixed_entries(&units[k]);
                let ghost pev = entry_views(pe@);
                entries.append(&mut pe);
                proof {
                    lemma_units_entry_views_snoc(units@, k as int);
                    assert(entry_views(entries@) =~= units_entry_views(units@.take(k as int))
                        + pev);
                }
                k = k + 1;
            }
            proof {
                assert(units@.take(units@.len() as int) =~= units@);
                lemma_wf_units_entries(units@);
            }
            archive_size(&entries).is_some()
        },
        ArchiveStrategy::Multiple => {
            let mut k: usize = 0;
            while k < units.len()
                invariant
                    k <= units@.len(),
                    forall|i: int|
                        0 <= i < k ==> entries_size(unit_entry_views(#[trigger] units@[i])) + 1024
                            <= usize::MAX,
                decreases units@.len() - k,
            {
                let pe = prefixed_entries(&units[k]);
                proof {
                    assert(wf_unit(units@[k as int]));
                }
                if archive_size(&pe).is_none() {
                    return false;
                }
                k = k + 1;
            }
            true
        },
    }
}

proof fn lemma_units_entry_views_snoc(us: Seq<BackupUnit>, k: int)
    requires
        0 <= k < us.len(),
    ensures
        units_entry_views(us.take(k + 1)) == units_entry_views(us.take(k)) + unit_entry_views(
            us[k],
        ),
    decreases us.len(),
{
    if k == 0 {
        assert(us.take(1).drop_first() =~= us.take(0));
        assert(us.take(1)[0] == us[0]);
        assert(unit_entry_views(us[0]) + units_entry_views(us.take(0)) =~= units_entry_views(
            us.take(0),
        ) + unit_entry_views(us[0]));
    } else {
        let d = us.drop_first();
        assert(us.take(k + 1).drop_first() =~= d.take(k));
        assert(us.take(k).drop_first() =~= d.take(k - 1));
        assert(us.take(k + 1)[0] == us[0]);
        assert(us.take(k)[0] == us[0]);
        lemma_units_entry_views_snoc(d, k - 1);
        assert(d[k - 1] == us[k]);
        assert(unit_entry_views(us[0]) + (units_entry_views(d.take(k - 1)) + unit_entry_views(
            us[k],
        )) =~= (unit_entry_views(us[0]) + units_entry_views(d.take(k - 1))) + unit_entry_views(
            us[k],
        ));
    }
}

/// Well-formed units have well-formed archive entries.
proof fn lemma_wf_units_entries(us: Seq<BackupUnit>)
    requires
        wf_units(us),
    ensures
        wf_entries(units_entry_views(us)),
    decreases us.len(),
{
    if us.len() > 0 {
        let d = us.drop_first();
        assert(wf_units(d)) by {
            assert(forall|i: int| 0 <= i < d.len() ==> #[trigger] d[i] == us[i + 1]);
        }
        lemma_wf_units_entries(d);
        assert(wf_unit(us[0]));
        assert(forall|i: int|
            0 <= i < units_entry_views(us).len() ==> {
                let e = #[trigger] units_entry_views(us)[i];
                if i < unit_entry_views(us[0]).len() {
                    e == unit_entry_views(us[0])[i]
                } else {
                    e == units_entry_views(d)[i - unit_entry_views(us[0]).len()]
                }
            });
    }
}

/// One local calendar time, as plain values.
#[derive(Clone, Copy, Debug, PartialEq, Eq, Structural)]
pub struct LocalTime {
    pub year: i32,
    pub month: u8,
    pub day: u8,
    pub hour: u8,
    pub minute: u8,
    pub second: u8,
}

/// The component ranges the clock promises.
pub open spec fn valid_time(t: LocalTime) -> bool {
    &&& 1 <= t.month <= 12
    &&& 1 <= t.day <= 31
    &&& t.hour < 24
    &&& t.minute < 60
    &&& t.second < 60
}

/// Relies on time's `OffsetDateTime::now_local` and its component
/// accessors: the month converts to one through twelve, the day is one
/// through thirty-one, and hour, minute and second are in their usual
/// ranges. The value itself depends on the clock, so nothing more is
/// promised.
#[verifier::external_body]
fn local_time_now() -> (r: Result<LocalTime, Error>)
    ensures
        r is Ok ==> valid_time(r->Ok_0),
        r is Err ==> r->Err_0 == Error::TimeOffset,
{
    match time::OffsetDateTime::now_local() {
        Ok(t) => Ok(
            LocalTime {
                year: t.year(),
                month: u8::from(t.month()),
                day: t.day(),
                hour: t.hour(),
                minute: t.minute(),
                second: t.second(),
            },
        ),
        Err(_) => Err(Error::TimeOffset),
    }
}

/// The year, zero-padded to four digits, with a leading minus sign for
/// years before zero.
pub open spec fn year_chars(y: int) -> Seq<char> {
    if y < 0 {
        seq!['-'] + pad_dec_chars((-y) as nat, 4)
    } else {
        pad_dec_chars(y as nat, 4)
    }
}

/// The timestamp format: year, month, day, hour, minute and second,
/// zero-padded, as in `2024-07-09_23-59-01`.
pub open spec fn timestamp_chars(t: LocalTime) -> Seq<char> {
    year_chars(t.year as int) + "-"@ + pad_dec_chars(t.month as nat, 2) + "-"@ + pad_dec_chars(
        t.day as nat,
        2,
    ) + "_"@ + pad_dec_chars(t.hour as nat, 2) + "-"@ + pad_dec_chars(t.minute as nat, 2) + "-"@
        + pad_dec_chars(t.second as nat, 2)
}

/// Formats a local time, per `timestamp_chars`.
pub fn format_timestamp(t: &LocalTime) -> (r: String)
    ensures
        r@ == timestamp_chars(*t),
{
    let mut s = String::new();
    if t.year < 0 {
        s.append("-");
        proof {
            reveal_strlit("-");
            assert("-"@ =~= seq!['-']);
        }
        let mag: i64 = -(t.year as i64);
        push_dec_padded(&mut s, mag as u32, 4);
    } else {
        push_dec_padded(&mut s, t.year as u32, 4);
    }
    s.append("-");
    push_dec_padded(&mut s, t.month as u32, 2);
    s.append("-");
    push_dec_padded(&mut s, t.day as u32, 2);
    s.append("_");
    push_dec_padded(&mut s, t.hour as u32, 2);
    s.append("-");
    push_dec_padded(&mut s, t.minute as u32, 2);
    s.append("-");
    push_dec_padded(&mut s, t.second as u32, 2);
    proof {
        assert(s@ =~= timestamp_chars(*t));
    }
    s
}

/// The timestamp of this cycle: the local time now, formatted. Sampled
/// once per cycle and shared by every archive the cycle writes.
pub fn timestamp() -> (r: Result<String, Error>)
    ensures
        r is Ok ==> exists|t: LocalTime| valid_time(t) && r->Ok_0@ == #[trigger] timestamp_chars(
            t,
        ),
        r is Err ==> r->Err_0 == Error::TimeOffset,
{
    match local_time_now() {
        Ok(t) => {
            let s = format_timestamp(&t);
            proof {
                assert(valid_time(t) && s@ == timestamp_chars(t));
            }
            Ok(s)
        },
        Err(e) => Err(e),
    }
}

/// The name of the Single-strategy archive file.
pub open spec fn single_archive_name_chars(prefix: Seq<char>, ts: Seq<char>, ext: Seq<char>)
    -> Seq<char> {
    prefix + "_"@ + ts + ".tar."@ + ext
}

/// The name of one unit's archive file under the Multiple strategy.
pub open spec fn unit_archive_name_chars(
    prefix: Seq<char>,
    unit: Seq<char>,
    ts: Seq<char>,
    ext: Seq<char>,
) -> Seq<char> {
    prefix + "_"@ + unit + "_"@ + ts + ".tar."@ + ext
}

/// Joins prefix, optional unit name, timestamp and extension into an
/// archive file name.
fn archive_file_name(prefix: &str, unit: Option<&String>, ts: &str, ext: &str) -> (r: String)
    ensures
        r@ == match unit {
            Some(u) => unit_archive_name_chars(prefix@, u@, ts@, ext@),
            None => single_archive_name_chars(prefix@, ts@, ext@),
        },
{
    let mut s = String::from_str(prefix);
    s.append("_");
    match unit {
        Some(u) => {
            s.append(u.as_str());
            s.append("_");
        },
        None => {},
    }
    s.append(ts);
    s.append(".tar.");
    s.append(ext);
    s
}

/// What the archive output of one unit must look like.
pub open spec fn unit_output_ok(
    o: ArchiveOutput,
    u: BackupUnit,
    config: Configuration,
    ts: Seq<char>,
) -> bool {
    &&& o.file_name@ == unit_archive_name_chars(
        config.archive_prefix@,
        u.name@,
        ts,
        config.archive_compression.extension_chars(),
    )
    &&& decode_of(config.archive_compression, o.bytes@) == Some(tar_bytes(unit_entry_views(u)))
    &&& o.mode == permission_mode(config.group_permission, config.other_permission)
}

/// What the one archive output of the Single strategy must look like.
pub open spec fn single_output_ok(
    o: ArchiveOutput,
    us: Seq<BackupUnit>,
    config: Configuration,
    ts: Seq<char>,
) -> bool {
    &&& o.file_name@ == single_archive_name_chars(
        config.archive_prefix@,
        ts,
        config.archive_compression.extension_chars(),
    )
    &&& decode_of(config.archive_compression, o.bytes@) == Some(tar_bytes(units_entry_views(us)))
    &&& o.mode == permission_mode(config.group_permission, config.other_permission)
}

/// Builds the one archive of the Single strategy: every unit's entries,
/// in order, in one stream. Building in memory cannot fail, so the
/// archive is owed.
pub fn single_archive(units: &Vec<BackupUnit>, config: &Configuration, ts: &str) -> (r: Result<
    ArchiveOutput,
    Error,
>)
    requires
        wf_units(units@),
        config.archive_compression_level <= config.archive_compression.spec_max_level(),
        entries_size(units_entry_views(units@)) + 1024 <= usize::MAX,
    ensures
        r is Ok,
        single_output_ok(r->Ok_0, units@, *config, ts@),
{
    let ghost us = units@;
    let mut entries: Vec<TarEntry> = Vec::new();
    let mut k: usize = 0;
    while k < units.len()
        invariant
            k <= us.len(),
            us == units@,
            entry_views(entries@) == units_entry_views(us.take(k as int)),
        decreases us.len() - k,
    {
        let mut pe = prefixed_entries(&units[k]);
        let ghost pev = entry_views(pe@);
        entries.append(&mut pe);
        proof {
            lemma_units_entry_views_snoc(us, k as int);
            assert(entry_views(entries@) =~= units_entry_views(us.take(k as int)) + pev);
        }
        k = k + 1;
    }
    proof {
        assert(us.take(us.len() as int) =~= us);
        lemma_wf_units_entries(us);
        assert(entries_size(entry_views(entries@)) + 1024 <= usize::MAX);
    }
    let tar = build_archive(&entries);
    let compressed = compress(
        &config.archive_compression,
        config.archive_compression_level,
        &tar,
    ).unwrap();
    let ext = config.archive_compression.extension();
    let file_name = archive_file_name(config.archive_prefix.as_str(), None, ts, ext.as_str());
    let mode = config.archive_permission();
    Ok(ArchiveOutput { file_name, bytes: compressed, mode })
}

/// Builds the archives of the Multiple strategy: one per unit, each
/// holding only that unit's entries. Building in memory cannot fail,
/// so exactly one archive per unit is owed.
pub fn multiple_archive(units: &Vec<BackupUnit>, config: &Configuration, ts: &str) -> (r: Result<
    Vec<ArchiveOutput>,
    Error,
>)
    requires
        wf_units(units@),
        config.archive_compression_level <= config.archive_compression.spec_max_level(),
        forall|i: int|
            0 <= i < units@.len() ==> entries_size(unit_entry_views(#[trigger] units@[i])) + 1024
                <= usize::MAX,
    ensures
        r is Ok,
        r->Ok_0@.len() == units@.len(),
        forall|i: int|
            0 <= i < units@.len() ==> unit_output_ok(
                #[trigger] r->Ok_0@[i],
                units@[i],
                *config,
                ts@,
            ),
{
    let ghost us = units@;
    let mut outs: Vec<ArchiveOutput> = Vec::new();
    let mut k: usize = 0;
    while k < units.len()
        invariant
            k <= us.len(),
            us == units@,
            outs@.len() == k,
            wf_units(us),
            config.archive_compression_level <= config.archive_compression.spec_max_level(),
            forall|i: int|
                0 <= i < us.len() ==> entries_size(unit_entry_views(#[trigger] us[i])) + 1024
                    <= usize::MAX,
            forall|i: int|
                0 <= i < k ==> unit_output_ok(#[trigger] outs@[i], us[i], *config, ts@),
        decreases us.len() - k,
    {
        let unit = &units[k];
        let entries = prefixed_entries(unit);
        proof {
            assert(wf_unit(us[k as int]));
        }
        let tar = build_archive(&entries);
        let compressed = compress(
            &config.archive_compression,
            config.archive_compression_level,
            &tar,
        ).unwrap();
        let ext = config.archive_compression.extension();
        let file_name = archive_file_name(
            config.archive_prefix.as_str(),
            Some(&unit.name),
            ts,
            ext.as_str(),
        );
        let mode = config.archive_permission();
        outs.push(ArchiveOutput { file_name, bytes: compressed, mode });
        k = k + 1;
    }
    Ok(outs)
}

/// Builds this cycle's archives per the configured strategy: one
/// output for Single, one per unit for Multiple; the outputs are owed,
/// since building in memory cannot fail.
pub fn archive_units(units: &Vec<BackupUnit>, config: &Configuration, ts: &str) -> (r: Result<
    Vec<ArchiveOutput>,
    Error,
>)
    requires
        wf_units(units@),
        config.archive_compression_level <= config.archive_compression.spec_max_level(),
        config.archive_strategy is Single ==> entries_size(units_entry_views(units@)) + 1024
            <= usize::MAX,
        config.archive_strategy is Multiple ==> forall|i: int|
            0 <= i < units@.len() ==> entries_size(unit_entry_views(#[trigger] units@[i])) + 1024
                <= usize::MAX,
    ensures
        r is Ok,
        config.archive_strategy is Single ==> r->Ok_0@.len() == 1 && single_output_ok(
            r->Ok_0@[0],
            units@,
            *config,
            ts@,
        ),
        config.archive_strategy is Multiple ==> r->Ok_0@.len() == units@.len() && forall|i: int|
            0 <= i < units@.len() ==> unit_output_ok(
                #[trigger] r->Ok_0@[i],
                units@[i],
                *config,
                ts@,
            ),
{
    match config.archive_strategy {
        ArchiveStrategy::Single => {
            let out = single_archive(units, config, ts).unwrap();
            let mut outs: Vec<ArchiveOutput> = Vec::new();
            outs.push(out);
            Ok(outs)
        },
        ArchiveStrategy::Multiple => multiple_archive(units, config, ts),
    }
}

/// What extracting compressed archive bytes yields: decode with the
/// codec, then parse the tar bytes.
pub open spec fn extract_of(codec: ArchiveCompression, b: Seq<u8>) -> Option<Seq<TarEntryView>> {
    match decode_of(codec, b) {
        Some(t) => parse_tar(t),
        None => None,
    }
}

/// Decompresses and parses archive bytes, per `extract_of`.
pub fn extract_archive(codec: &ArchiveCompression, bytes: &Vec<u8>) -> (r: Option<Vec<TarEntry>>)
    ensures
        match extract_of(*codec, bytes@) {
            Some(es) => r is Some && entry_views(r->0@) == es,
            None => r is None,
        },
{
    match decompress(codec, bytes) {
        Ok(t) => parse_archive(&t),
        Err(_) => None,
    }
}

/// Law: a Single-strategy archive, decompressed and parsed, yields
/// exactly the archived entries — every unit's files, in order, with
/// their names and contents intact.
pub proof fn lemma_single_archive_round_trip(
    us: Seq<BackupUnit>,
    codec: ArchiveCompression,
    compressed: Seq<u8>,
)
    requires
        wf_units(us),
        decode_of(codec, compressed) == Some(tar_bytes(units_entry_views(us))),
    ensures
        extract_of(codec, compressed) == Some(units_entry_views(us)),
{
    lemma_wf_units_entries(us);
    crate::tar::lemma_tar_round_trip(units_entry_views(us));
}

/// Law: under the Multiple strategy each unit's archive, decompressed
/// and parsed, yields exactly that unit's entries and no others.
pub proof fn lemma_unit_archive_round_trip(
    u: BackupUnit,
    codec: ArchiveCompression,
    compressed: Seq<u8>,
)
    requires
        wf_unit(u),
        decode_of(codec, compressed) == Some(tar_bytes(unit_entry_views(u))),
    ensures
        extract_of(codec, compressed) == Some(unit_entry_views(u)),
{
    crate::tar::lemma_tar_round_trip(unit_entry_views(u));
}

} // verus!
