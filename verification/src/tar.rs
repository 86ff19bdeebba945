//! Tar archive composition and parsing, on in-memory bytes.
//!
//! An archive is a sequence of entries, each a 512-byte header followed
//! by the file content padded to a block boundary, ended by two zero
//! blocks. Headers follow the POSIX ustar layout with fixed mode, owner
//! and timestamp fields; a name longer than the 100-byte name field is
//! carried in a GNU long-name entry (typeflag `L`) written just before
//! the entry it names. Building and parsing are verified against the
//! same byte-level model, and `lemma_tar_round_trip` shows that parsing
//! inverts building.

use vstd::prelude::*;

verus! {

/// One file to be archived: its path inside the archive (UTF-8 bytes,
/// at least one, none of them NUL) and its content.
pub struct TarEntry {
    pub name: Vec<u8>,
    pub data: Vec<u8>,
}

/// The mathematical view of one entry.
pub ghost struct TarEntryView {
    pub name: Seq<u8>,
    pub data: Seq<u8>,
}

impl View for TarEntry {
    type V = TarEntryView;

    open spec fn view(&self) -> TarEntryView {
        TarEntryView { name: self.name@, data: self.data@ }
    }
}

/// The views of a sequence of entries.
pub open spec fn entry_views(es: Seq<TarEntry>) -> Seq<TarEntryView> {
    es.map_values(|e: TarEntry| e@)
}

/// `n` zero bytes.
pub open spec fn zero_bytes(n: nat) -> Seq<u8> {
    Seq::new(n, |i: int| 0u8)
}

/// Eight to the power `w`.
pub open spec fn pow8(w: nat) -> nat
    decreases w,
{
    if w == 0 {
        1
    } else {
        8 * pow8((w - 1) as nat)
    }
}

/// `width` octal digit bytes for `n`, most significant first.
pub open spec fn octal_bytes(n: nat, width: nat) -> Seq<u8>
    decreases width,
{
    if width == 0 {
        Seq::empty()
    } else {
        octal_bytes(n / 8, (width - 1) as nat).push((48 + n % 8) as u8)
    }
}

/// The value of a string of octal digit bytes, most significant first.
pub open spec fn octal_val(s: Seq<u8>) -> nat
    decreases s.len(),
{
    if s.len() == 0 {
        0
    } else {
        octal_val(s.drop_last()) * 8 + (if s.last() >= 48 {
            (s.last() - 48) as nat
        } else {
            0
        })
    }
}

/// Whether every byte of `s` is an octal digit.
pub open spec fn all_octal(s: Seq<u8>) -> bool {
    forall|i: int| 0 <= i < s.len() ==> 48 <= #[trigger] s[i] <= 55
}

/// The sum of the bytes of `s`.
pub open spec fn byte_sum(s: Seq<u8>) -> nat
    decreases s.len(),
{
    if s.len() == 0 {
        0
    } else {
        byte_sum(s.drop_last()) + s.last() as nat
    }
}

/// The magic field of a ustar header.
pub open spec fn magic_bytes() -> Seq<u8> {
    seq![117u8, 115u8, 116u8, 97u8, 114u8, 0u8]
}

/// The name field of a GNU long-name entry.
pub open spec fn longlink_name() -> Seq<u8> {
    seq![46u8, 47u8, 46u8, 47u8, 64u8, 76u8, 111u8, 110u8, 103u8, 76u8, 105u8, 110u8, 107u8]
}

/// The header for `name`, content length `size` and `typeflag`, with
/// the checksum field still holding its placeholder of eight spaces.
pub open spec fn header_pre(name: Seq<u8>, size: nat, typeflag: u8) -> Seq<u8> {
    name + zero_bytes((100 - name.len()) as nat)  // name, NUL-padded
    + octal_bytes(0o644, 7) + seq![0u8]  // mode
    + octal_bytes(0, 7) + seq![0u8]  // uid
    + octal_bytes(0, 7) + seq![0u8]  // gid
    + octal_bytes(size, 11) + seq![0u8]  // size
    + octal_bytes(0, 11) + seq![0u8]  // mtime
    + Seq::new(8, |i: int| 32u8)  // checksum placeholder
    + seq![typeflag]
    + zero_bytes(100)  // linkname
    + magic_bytes() + seq![48u8, 48u8]  // magic and version
    + zero_bytes(247)  // uname, gname, device numbers, prefix, padding
}

/// The completed header: the checksum field holds the octal sum of the
/// header bytes with the placeholder in place, then a NUL and a space.
pub open spec fn header_bytes(name: Seq<u8>, size: nat, typeflag: u8) -> Seq<u8> {
    let pre = header_pre(name, size, typeflag);
    pre.take(148) + octal_bytes(byte_sum(pre), 6) + seq![0u8, 32u8] + pre.skip(156)
}

/// How many zero bytes pad a content of length `n` to a block boundary.
pub open spec fn pad_len(n: nat) -> nat {
    if n % 512 == 0 {
        0
    } else {
        (512 - n % 512) as nat
    }
}

/// The name written in the regular header: the name itself where it
/// fits the 100-byte field, its first 100 bytes otherwise (the full
/// name then travels in the long-name entry before it).
pub open spec fn short_name(name: Seq<u8>) -> Seq<u8> {
    if name.len() <= 100 {
        name
    } else {
        name.take(100)
    }
}

/// The bytes one entry contributes to the archive: for a long name, a
/// GNU long-name entry (typeflag `L`, content the name and one NUL)
/// first, then the regular entry.
pub open spec fn entry_bytes(e: TarEntryView) -> Seq<u8> {
    let reg = header_bytes(short_name(e.name), e.data.len(), 48) + e.data + zero_bytes(
        pad_len(e.data.len()),
    );
    if e.name.len() <= 100 {
        reg
    } else {
        header_bytes(longlink_name(), e.name.len() + 1, 76) + e.name + seq![0u8] + zero_bytes(
            pad_len(e.name.len() + 1),
        ) + reg
    }
}

/// The bytes of all entries, in order, without the trailer.
pub open spec fn entries_bytes(es: Seq<TarEntryView>) -> Seq<u8>
    decreases es.len(),
{
    if es.len() == 0 {
        Seq::empty()
    } else {
        entry_bytes(es[0]) + entries_bytes(es.drop_first())
    }
}

/// The bytes of a whole archive: all entries, then two zero blocks.
pub open spec fn tar_bytes(es: Seq<TarEntryView>) -> Seq<u8> {
    entries_bytes(es) + zero_bytes(1024)
}

/// A well-formed entry name: at least one byte, none of them NUL, and
/// short enough that its long-name entry's size fits the octal size
/// field.
pub open spec fn wf_name(name: Seq<u8>) -> bool {
    &&& 1 <= name.len()
    &&& name.len() + 1 < pow8(11)
    &&& forall|i: int| 0 <= i < name.len() ==> #[trigger] name[i] != 0
}

/// A well-formed entry: its name and its content length both fit the
/// octal size field.
pub open spec fn wf_entry(e: TarEntryView) -> bool {
    &&& wf_name(e.name)
    &&& e.data.len() < pow8(11)
}

/// Whether every entry is well-formed.
pub open spec fn wf_entries(es: Seq<TarEntryView>) -> bool {
    forall|i: int| 0 <= i < es.len() ==> wf_entry(#[trigger] es[i])
}

/// The length of `entry_bytes(e)`.
pub open spec fn entry_size(e: TarEntryView) -> nat {
    (if e.name.len() <= 100 {
        0
    } else {
        512 + e.name.len() + 1 + pad_len(e.name.len() + 1)
    }) + 512 + e.data.len() + pad_len(e.data.len())
}

/// The length of `entries_bytes(es)`.
pub open spec fn entries_size(es: Seq<TarEntryView>) -> nat
    decreases es.len(),
{
    if es.len() == 0 {
        0
    } else {
        entry_size(es[0]) + entries_size(es.drop_first())
    }
}

proof fn lemma_octal_bytes_len(n: nat, width: nat)
    ensures
        octal_bytes(n, width).len() == width,
        all_octal(octal_bytes(n, width)),
    decreases width,
{
    if width > 0 {
        lemma_octal_bytes_len(n / 8, (width - 1) as nat);
    }
}

proof fn lemma_header_pre_len(name: Seq<u8>, size: nat, typeflag: u8)
    requires
        name.len() <= 100,
    ensures
        header_pre(name, size, typeflag).len() == 512,
{
    lemma_octal_bytes_len(0o644, 7);
    lemma_octal_bytes_len(0, 7);
    lemma_octal_bytes_len(size, 11);
    lemma_octal_bytes_len(0, 11);
}

proof fn lemma_header_bytes_len(name: Seq<u8>, size: nat, typeflag: u8)
    requires
        name.len() <= 100,
    ensures
        header_bytes(name, size, typeflag).len() == 512,
{
    lemma_header_pre_len(name, size, typeflag);
    lemma_octal_bytes_len(byte_sum(header_pre(name, size, typeflag)), 6);
}

proof fn lemma_byte_sum_take_step(s: Seq<u8>, i: int)
    requires
        0 <= i < s.len(),
    ensures
        byte_sum(s.take(i + 1)) == byte_sum(s.take(i)) + s[i],
{
    assert(s.take(i + 1).drop_last() =~= s.take(i));
    assert(s.take(i + 1).last() == s[i]);
}

/// Appends `n` zero bytes.
#[verifier::loop_isolation(false)]
fn push_zeros(out: &mut Vec<u8>, n: usize)
    ensures
        final(out)@ == old(out)@ + zero_bytes(n as nat),
{
    let mut i: usize = 0;
    while i < n
        invariant
            i <= n,
            out@ == old(out)@ + zero_bytes(i as nat),
        decreases n - i,
    {
        out.push(0);
        assert(old(out)@ + zero_bytes(i as nat) + seq![0u8] =~= old(out)@ + zero_bytes(
            (i + 1) as nat,
        ));
        i = i + 1;
    }
}

/// Appends the `width`-digit octal form of `n`.
fn push_octal(out: &mut Vec<u8>, n: u64, width: usize)
    ensures
        final(out)@ == old(out)@ + octal_bytes(n as nat, width as nat),
    decreases width,
{
    if width == 0 {
        assert(old(out)@ + octal_bytes(n as nat, 0) =~= old(out)@);
    } else {
        push_octal(out, n / 8, width - 1);
        out.push(48 + (n % 8) as u8);
        assert(old(out)@ + octal_bytes((n / 8) as nat, (width - 1) as nat) + seq![
            (48 + n as nat % 8) as u8,
        ] =~= old(out)@ + octal_bytes(n as nat, width as nat));
    }
}

/// The sum of all bytes of `v`.
#[verifier::loop_isolation(false)]
fn sum_bytes(v: &Vec<u8>) -> (r: u32)
    requires
        v@.len() <= 1024,
    ensures
        r == byte_sum(v@),
{
    let mut sum: u32 = 0;
    let mut i: usize = 0;
    while i < v.len()
        invariant
            i <= v@.len(),
            sum == byte_sum(v@.take(i as int)),
            sum <= 255 * i,
        decreases v@.len() - i,
    {
        proof {
            lemma_byte_sum_take_step(v@, i as int);
        }
        sum = sum + v[i] as u32;
        i = i + 1;
    }
    proof {
        assert(v@.take(v@.len() as int) =~= v@);
    }
    sum
}

/// Appends the completed ustar header for `name`, `size` and
/// `typeflag`.
#[verifier::rlimit(80)]
fn push_header(out: &mut Vec<u8>, name: &Vec<u8>, size: u64, typeflag: u8)
    requires
        name@.len() <= 100,
    ensures
        final(out)@ == old(out)@ + header_bytes(name@, size as nat, typeflag),
{
    let mut hdr: Vec<u8> = Vec::new();
    hdr.extend_from_slice(name.as_slice());
    push_zeros(&mut hdr, 100 - name.len());
    push_octal(&mut hdr, 0o644, 7);
    hdr.push(0);
    push_octal(&mut hdr, 0, 7);
    hdr.push(0);
    push_octal(&mut hdr, 0, 7);
    hdr.push(0);
    push_octal(&mut hdr, size, 11);
    hdr.push(0);
    push_octal(&mut hdr, 0, 11);
    hdr.push(0);
    hdr.push(32);
    hdr.push(32);
    hdr.push(32);
    hdr.push(32);
    hdr.push(32);
    hdr.push(32);
    hdr.push(32);
    hdr.push(32);
    hdr.push(typeflag);
    push_zeros(&mut hdr, 100);
    hdr.push(117);
    hdr.push(115);
    hdr.push(116);
    hdr.push(97);
    hdr.push(114);
    hdr.push(0);
    hdr.push(48);
    hdr.push(48);
    push_zeros(&mut hdr, 247);
    proof {
        lemma_header_pre_len(name@, size as nat, typeflag);
        assert(Seq::new(8, |i: int| 32u8) =~= seq![32u8, 32u8, 32u8, 32u8, 32u8, 32u8, 32u8, 32u8]);
    }
    assert(hdr@ =~= header_pre(name@, size as nat, typeflag));
    let sum = sum_bytes(&hdr);
    out.extend_from_slice(&hdr[0..148]);
    push_octal(out, sum as u64, 6);
    out.push(0);
    out.push(32);
    out.extend_from_slice(&hdr[156..512]);
    assert(out@ =~= old(out)@ + header_bytes(name@, size as nat, typeflag));
}

/// The name field of a long-name entry, as a vector.
fn longlink_vec() -> (r: Vec<u8>)
    ensures
        r@ == longlink_name(),
{
    let mut v: Vec<u8> = Vec::new();
    v.push(46);
    v.push(47);
    v.push(46);
    v.push(47);
    v.push(64);
    v.push(76);
    v.push(111);
    v.push(110);
    v.push(103);
    v.push(76);
    v.push(105);
    v.push(110);
    v.push(107);
    proof {
        assert(v@ =~= longlink_name());
    }
    v
}

proof fn lemma_entries_bytes_snoc(es: Seq<TarEntryView>, k: int)
    requires
        0 <= k < es.len(),
    ensures
        entries_bytes(es.take(k + 1)) == entries_bytes(es.take(k)) + entry_bytes(es[k]),
    decreases es.len(),
{
    if k == 0 {
        assert(es.take(1).drop_first() =~= es.take(0));
        assert(es.take(1)[0] == es[0]);
        assert(entry_bytes(es[0]) + entries_bytes(es.take(0)) =~= entries_bytes(es.take(0))
            + entry_bytes(es[0]));
    } else {
        let d = es.drop_first();
        assert(es.take(k + 1).drop_first() =~= d.take(k));
        assert(es.take(k).drop_first() =~= d.take(k - 1));
        assert(es.take(k + 1)[0] == es[0]);
        assert(es.take(k)[0] == es[0]);
        lemma_entries_bytes_snoc(d, k - 1);
        assert(d[k - 1] == es[k]);
        assert(entry_bytes(es[0]) + (entries_bytes(d.take(k - 1)) + entry_bytes(es[k])) =~= (
        entry_bytes(es[0]) + entries_bytes(d.take(k - 1))) + entry_bytes(es[k]));
    }
}

/// Appends the bytes of one entry: the long-name block first where the
/// name is long, then the header, content and padding.
#[verifier::rlimit(90)]
fn push_entry(out: &mut Vec<u8>, e: &TarEntry)
    requires
        wf_entry(e@),
    ensures
        final(out)@ == old(out)@ + entry_bytes(e@),
{
    proof {
        lemma_pow8_11();
    }
    if e.name.len() <= 100 {
        push_header(out, &e.name, e.data.len() as u64, 48);
        out.extend_from_slice(e.data.as_slice());
        let r = e.data.len() % 512;
        let pad = if r == 0 {
            0
        } else {
            512 - r
        };
        push_zeros(out, pad);
        proof {
            assert(out@ =~= old(out)@ + entry_bytes(e@));
        }
    } else {
        // the long-name entry carries the full name and one NUL
        let ll = longlink_vec();
        let lsize: u64 = e.name.len() as u64 + 1;
        push_header(out, &ll, lsize, 76);
        out.extend_from_slice(e.name.as_slice());
        out.push(0);
        let lr = lsize % 512;
        let lpad: u64 = if lr == 0 {
            0
        } else {
            512 - lr
        };
        push_zeros(out, lpad as usize);
        let mut tn: Vec<u8> = Vec::new();
        tn.extend_from_slice(&e.name[0..100]);
        proof {
            assert(tn@ =~= short_name(e@.name));
        }
        push_header(out, &tn, e.data.len() as u64, 48);
        out.extend_from_slice(e.data.as_slice());
        let r = e.data.len() % 512;
        let pad = if r == 0 {
            0
        } else {
            512 - r
        };
        push_zeros(out, pad);
        proof {
            assert(out@ =~= old(out)@ + entry_bytes(e@));
        }
    }
}

/// Builds the archive bytes for `entries`, per `tar_bytes`.
#[verifier::loop_isolation(false)]
pub fn build_archive(entries: &Vec<TarEntry>) -> (out: Vec<u8>)
    requires
        wf_entries(entry_views(entries@)),
        entries_size(entry_views(entries@)) + 1024 <= usize::MAX,
    ensures
        out@ == tar_bytes(entry_views(entries@)),
{
    let ghost es = entry_views(entries@);
    let mut out: Vec<u8> = Vec::new();
    let mut k: usize = 0;
    while k < entries.len()
        invariant
            k <= entries@.len(),
            out@ == entries_bytes(es.take(k as int)),
        decreases entries@.len() - k,
    {
        let e = &entries[k];
        proof {
            assert(es[k as int] == entries@[k as int]@);
            assert(wf_entry(es[k as int]));
        }
        push_entry(&mut out, e);
        proof {
            lemma_entries_bytes_snoc(es, k as int);
            assert(out@ =~= entries_bytes(es.take(k as int + 1)));
        }
        k = k + 1;
    }
    push_zeros(&mut out, 1024);
    proof {
        assert(es.take(es.len() as int) =~= es);
    }
    out
}

/// The index of the first NUL byte of `s`, or its length if none.
pub open spec fn nul_index(s: Seq<u8>) -> nat
    decreases s.len(),
{
    if s.len() == 0 {
        0
    } else if s[0] == 0 {
        0
    } else {
        1 + nul_index(s.drop_first())
    }
}

proof fn lemma_nul_index_char(s: Seq<u8>, k: int)
    requires
        0 <= k <= s.len(),
        forall|j: int| 0 <= j < k ==> #[trigger] s[j] != 0,
        k < s.len() ==> s[k] == 0,
    ensures
        nul_index(s) == k,
    decreases s.len(),
{
    if s.len() == 0 {
    } else if s[0] == 0 {
        assert(k == 0);
    } else {
        assert(k >= 1);
        let d = s.drop_first();
        assert(forall|j: int| 0 <= j < k - 1 ==> #[trigger] d[j] != 0);
        lemma_nul_index_char(d, k - 1);
    }
}

/// Whether `s` is one all-zero block.
pub open spec fn is_zero_block(s: Seq<u8>) -> bool {
    s.len() == 512 && forall|i: int| 0 <= i < 512 ==> #[trigger] s[i] == 0
}

/// What parsing archive bytes yields: the entries up to the first zero
/// block, or nothing when the bytes are not a well-formed archive of
/// the shape this library writes. A long-name entry (typeflag `L`)
/// names the entry that follows it, its content being that name and
/// one trailing NUL.
pub open spec fn parse_tar(b: Seq<u8>) -> Option<Seq<TarEntryView>>
    decreases b.len(),
{
    if b.len() < 1024 {
        None
    } else if is_zero_block(b.take(512)) {
        Some(Seq::empty())
    } else {
        let hdr = b.take(512);
        let nl = nul_index(hdr.take(100));
        let sizef = hdr.subrange(124, 135);
        if hdr.subrange(257, 263) == magic_bytes() && all_octal(sizef) && hdr[135] == 0 {
            let size = octal_val(sizef);
            let total = 512 + size + pad_len(size);
            if total <= b.len() {
                if hdr[156] == 76 {
                    if size >= 2 && b[512 + size - 1] == 0 {
                        match parse_tar(b.skip(total as int)) {
                            Some(rest) => if rest.len() >= 1 {
                                Some(
                                    rest.update(
                                        0,
                                        TarEntryView {
                                            name: b.subrange(512, 512 + size - 1),
                                            data: rest[0].data,
                                        },
                                    ),
                                )
                            } else {
                                None
                            },
                            None => None,
                        }
                    } else {
                        None
                    }
                } else if nl >= 1 {
                    match parse_tar(b.skip(total as int)) {
                        Some(rest) => Some(
                            seq![
                                TarEntryView {
                                    name: hdr.take(nl as int),
                                    data: b.subrange(512, 512 + size as int),
                                },
                            ] + rest,
                        ),
                        None => None,
                    }
                } else {
                    None
                }
            } else {
                None
            }
        } else {
            None
        }
    }
}

proof fn lemma_octal_val_bytes(n: nat, width: nat)
    requires
        n < pow8(width),
    ensures
        octal_val(octal_bytes(n, width)) == n,
    decreases width,
{
    if width == 0 {
    } else {
        assert(pow8(width) == 8 * pow8((width - 1) as nat));
        assert(n / 8 < pow8((width - 1) as nat)) by (nonlinear_arith)
            requires
                n < 8 * pow8((width - 1) as nat),
        ;
        lemma_octal_val_bytes(n / 8, (width - 1) as nat);
        let ob = octal_bytes(n, width);
        assert(ob.drop_last() =~= octal_bytes(n / 8, (width - 1) as nat));
        assert(ob.last() == (48 + n % 8) as u8);
    }
}

/// Everything `parse_tar` reads out of one completed header.
proof fn lemma_parse_header(name: Seq<u8>, size: nat, typeflag: u8)
    requires
        1 <= name.len() <= 100,
        forall|i: int| 0 <= i < name.len() ==> #[trigger] name[i] != 0,
        size < pow8(11),
    ensures
        ({
            let hdr = header_bytes(name, size, typeflag);
            &&& hdr.len() == 512
            &&& hdr.subrange(257, 263) == magic_bytes()
            &&& hdr[257] == 117
            &&& hdr[156] == typeflag
            &&& nul_index(hdr.take(100)) == name.len()
            &&& hdr.take(name.len() as int) == name
            &&& all_octal(hdr.subrange(124, 135))
            &&& octal_val(hdr.subrange(124, 135)) == size
            &&& hdr[135] == 0
        }),
{
    let pre = header_pre(name, size, typeflag);
    let hdr = header_bytes(name, size, typeflag);
    lemma_header_pre_len(name, size, typeflag);
    lemma_header_bytes_len(name, size, typeflag);
    lemma_octal_bytes_len(0o644, 7);
    lemma_octal_bytes_len(0, 7);
    lemma_octal_bytes_len(size, 11);
    lemma_octal_bytes_len(0, 11);
    lemma_octal_bytes_len(byte_sum(pre), 6);
    // outside the checksum field the completed header equals the raw one
    assert(forall|i: int| 0 <= i < 148 ==> hdr[i] == pre[i]);
    assert(forall|i: int| 156 <= i < 512 ==> hdr[i] == pre[i]);
    // the name field
    assert(forall|i: int| 0 <= i < name.len() ==> hdr[i] == name[i]);
    assert(hdr.take(name.len() as int) =~= name);
    if name.len() < 100 {
        assert(pre[name.len() as int] == 0);
    }
    assert(forall|j: int| 0 <= j < name.len() ==> #[trigger] hdr.take(100)[j] != 0);
    lemma_nul_index_char(hdr.take(100), name.len() as int);
    // the size field
    assert(hdr.subrange(124, 135) =~= octal_bytes(size, 11));
    lemma_octal_val_bytes(size, 11);
    assert(hdr[135] == 0);
    // the magic field
    assert(hdr.subrange(257, 263) =~= magic_bytes());
}

/// Parsing inverts building: for well-formed entries, the archive bytes
/// parse back to exactly those entries.
/// The truncated-name twin of `e`: what the regular header carries
/// when the name is long.
pub open spec fn truncated_entry(e: TarEntryView) -> TarEntryView {
    TarEntryView { name: e.name.take(100), data: e.data }
}

#[verifier::rlimit(90)]
proof fn lemma_round_trip_short(es: Seq<TarEntryView>)
    requires
        wf_entries(es),
        es.len() > 0,
        es[0].name.len() <= 100,
        parse_tar(tar_bytes(es.drop_first())) == Some(es.drop_first()),
    ensures
        parse_tar(tar_bytes(es)) == Some(es),
{
    let b = tar_bytes(es);
    let e = es[0];
    let rest = es.drop_first();
    assert(wf_entry(e));
    lemma_parse_header(e.name, e.data.len(), 48);
    let hdr = header_bytes(e.name, e.data.len(), 48);
    let eb = entry_bytes(e);
    let size = e.data.len();
    let total = 512 + size + pad_len(size);
    assert(eb.len() == total);
    assert(b =~= eb + tar_bytes(rest));
    assert(b.len() >= 1024 + total);
    // the first block is the header, which is not a zero block
    assert(b.take(512) =~= hdr);
    assert(b.take(512)[257] == 117);
    assert(!is_zero_block(b.take(512)));
    // a regular entry, not a long-name one
    assert(b.take(512)[156] == 48);
    // the header fields recover the name and the size
    assert(b.take(512).take(100) =~= hdr.take(100));
    assert(b.take(512).take(e.name.len() as int) =~= hdr.take(e.name.len() as int));
    assert(b.take(512).subrange(124, 135) =~= hdr.subrange(124, 135));
    // the content and the remaining entries follow the header
    assert(b.subrange(512, 512 + size as int) =~= e.data);
    assert(b.skip(total as int) =~= tar_bytes(rest));
    let ghost parsed = TarEntryView {
        name: b.take(512).take(nul_index(b.take(512).take(100)) as int),
        data: b.subrange(512, 512 + size as int),
    };
    assert(parsed == e);
    assert(seq![e] + rest =~= es);
}

/// For a long name, the entry's bytes are the long-name block followed
/// by the bytes of the truncated-name twin.
proof fn lemma_long_entry_decomposition(e: TarEntryView)
    requires
        e.name.len() > 100,
    ensures
        entry_bytes(e) == header_bytes(longlink_name(), e.name.len() + 1, 76) + e.name
            + seq![0u8] + zero_bytes(pad_len(e.name.len() + 1)) + entry_bytes(truncated_entry(e)),
{
    assert(entry_bytes(e) =~= header_bytes(longlink_name(), e.name.len() + 1, 76) + e.name
        + seq![0u8] + zero_bytes(pad_len(e.name.len() + 1)) + entry_bytes(truncated_entry(e)));
}

/// The byte shape of the long-name block for `name`.
#[verifier::rlimit(90)]
proof fn lemma_long_block_shape(name: Seq<u8>)
    requires
        1 <= name.len(),
        name.len() + 1 < pow8(11),
    ensures
        ({
            let size = (name.len() + 1) as nat;
            let lb = header_bytes(longlink_name(), size, 76) + name + seq![0u8] + zero_bytes(
                pad_len(size),
            );
            &&& lb.len() == 512 + size + pad_len(size)
            &&& lb.take(512) == header_bytes(longlink_name(), size, 76)
            &&& lb.subrange(512, 512 + size - 1) == name
            &&& lb[512 + size - 1] == 0
        }),
{
    let size = (name.len() + 1) as nat;
    let hdr = header_bytes(longlink_name(), size, 76);
    let lb = hdr + name + seq![0u8] + zero_bytes(pad_len(size));
    lemma_header_bytes_len(longlink_name(), size, 76);
    assert(lb.take(512) =~= hdr);
    assert(lb.subrange(512, 512 + size - 1) =~= name);
    assert(lb[512 + size - 1] == 0);
}

/// For a long first name, the archive bytes start with the long-name
/// block, followed by the archive of the truncated twin and the rest.
#[verifier::rlimit(90)]
proof fn lemma_long_stream_split(es: Seq<TarEntryView>)
    requires
        es.len() > 0,
        es[0].name.len() > 100,
    ensures
        ({
            let size = (es[0].name.len() + 1) as nat;
            tar_bytes(es) == header_bytes(longlink_name(), size, 76) + es[0].name + seq![0u8]
                + zero_bytes(pad_len(size)) + tar_bytes(
                seq![truncated_entry(es[0])] + es.drop_first(),
            )
        }),
{
    let e = es[0];
    let rest = es.drop_first();
    let trunc = truncated_entry(e);
    let es2 = seq![trunc] + rest;
    let size = (e.name.len() + 1) as nat;
    lemma_long_entry_decomposition(e);
    assert(es2.drop_first() =~= rest);
    assert(es2[0] == trunc);
    assert(entries_bytes(es2) == entry_bytes(trunc) + entries_bytes(rest));
    assert(tar_bytes(es) =~= header_bytes(longlink_name(), size, 76) + e.name + seq![0u8]
        + zero_bytes(pad_len(size)) + tar_bytes(es2));
}

/// Parsing a long-name block: the entries of the tail, with the first
/// one renamed to the long name the block carries.
#[verifier::rlimit(100)]
proof fn lemma_parse_long_block(name: Seq<u8>, tail: Seq<u8>, result: Seq<TarEntryView>)
    requires
        1 <= name.len(),
        name.len() + 1 < pow8(11),
        tail.len() >= 1024,
        parse_tar(tail) == Some(result),
        result.len() >= 1,
    ensures
        parse_tar(
            header_bytes(longlink_name(), name.len() + 1, 76) + name + seq![0u8] + zero_bytes(
                pad_len(name.len() + 1),
            ) + tail,
        ) == Some(result.update(0, TarEntryView { name: name, data: result[0].data })),
{
    let size = (name.len() + 1) as nat;
    let hdr = header_bytes(longlink_name(), size, 76);
    let lb = hdr + name + seq![0u8] + zero_bytes(pad_len(size));
    let b = lb + tail;
    let total = 512 + size + pad_len(size);
    lemma_parse_header(longlink_name(), size, 76);
    lemma_long_block_shape(name);
    assert(b.len() >= 1024 + total);
    assert(b.take(512) =~= lb.take(512));
    assert(b.take(512) == hdr);
    assert(b.take(512)[257] == 117);
    assert(!is_zero_block(b.take(512)));
    assert(b.take(512)[156] == 76);
    assert(b.subrange(512, 512 + size - 1) =~= lb.subrange(512, 512 + size - 1));
    assert(b[512 + size - 1] == lb[512 + size - 1]);
    assert(b.skip(total as int) =~= tail);
}

#[verifier::rlimit(100)]
proof fn lemma_round_trip_long(es: Seq<TarEntryView>)
    requires
        wf_entries(es),
        es.len() > 0,
        es[0].name.len() > 100,
        parse_tar(tar_bytes(seq![truncated_entry(es[0])] + es.drop_first())) == Some(
            seq![truncated_entry(es[0])] + es.drop_first(),
        ),
    ensures
        parse_tar(tar_bytes(es)) == Some(es),
{
    // the first entry's name travels in a long-name entry; the regular
    // entry that follows carries the truncated name, which the parser
    // replaces with the long one
    let e = es[0];
    let rest = es.drop_first();
    assert(wf_entry(e));
    let trunc = truncated_entry(e);
    let es2 = seq![trunc] + rest;
    lemma_long_stream_split(es);
    assert(tar_bytes(es2).len() >= 1024);
    lemma_parse_long_block(e.name, tar_bytes(es2), es2);
    assert(es2[0] == trunc);
    let ghost renamed = TarEntryView { name: e.name, data: es2[0].data };
    assert(renamed == e);
    assert(es2.update(0, renamed) =~= es);
}

/// Parsing inverts building: for well-formed entries, the archive bytes
/// parse back to exactly those entries.
pub proof fn lemma_tar_round_trip(es: Seq<TarEntryView>)
    requires
        wf_entries(es),
    ensures
        parse_tar(tar_bytes(es)) == Some(es),
    decreases es.len(), (if es.len() > 0 && es[0].name.len() > 100 {
        1int
    } else {
        0int
    }),
{
    if es.len() == 0 {
        let b = tar_bytes(es);
        assert(entries_bytes(es) =~= Seq::<u8>::empty());
        assert(b =~= zero_bytes(1024));
        assert(is_zero_block(b.take(512)));
        assert(es =~= Seq::<TarEntryView>::empty());
    } else if es[0].name.len() <= 100 {
        let rest = es.drop_first();
        assert(wf_entries(rest));
        lemma_tar_round_trip(rest);
        lemma_round_trip_short(es);
    } else {
        let e = es[0];
        let rest = es.drop_first();
        assert(wf_entry(e));
        let trunc = truncated_entry(e);
        let es2 = seq![trunc] + rest;
        assert(wf_entry(trunc)) by {
            lemma_pow8_11();
            assert(forall|i: int| 0 <= i < 100 ==> #[trigger] trunc.name[i] == e.name[i]);
        }
        assert(wf_entries(es2)) by {
            assert(forall|i: int| 1 <= i < es2.len() ==> #[trigger] es2[i] == es[i]);
        }
        lemma_tar_round_trip(es2);
        lemma_round_trip_long(es);
    }
}

/// Parses the archive suffix beginning at `pos`, per `parse_tar`.
#[verifier::loop_isolation(false)]
#[verifier::rlimit(95)]
fn parse_at(b: &Vec<u8>, pos: usize) -> (r: Option<Vec<TarEntry>>)
    requires
        pos <= b@.len(),
    ensures
        match parse_tar(b@.skip(pos as int)) {
            Some(es) => r is Some && entry_views(r->0@) == es,
            None => r is None,
        },
    decreases b@.len() - pos,
{
    let ghost t = b@.skip(pos as int);
    let n = b.len();
    if n - pos < 1024 {
        return None;
    }
    // is the block at `pos` all zero?
    let mut z: usize = 0;
    while z < 512 && b[pos + z] == 0
        invariant
            z <= 512,
            forall|j: int| 0 <= j < z ==> #[trigger] t[j] == 0,
        decreases 512 - z,
    {
        z = z + 1;
    }
    if z == 512 {
        proof {
            assert(is_zero_block(t.take(512)));
        }
        let empty: Vec<TarEntry> = Vec::new();
        proof {
            assert(entry_views(empty@) =~= Seq::<TarEntryView>::empty());
        }
        return Some(empty);
    }
    proof {
        assert(t.take(512)[z as int] != 0);
        assert(!is_zero_block(t.take(512)));
    }
    let ghost hdr = t.take(512);
    // the name: bytes before the first NUL of the name field
    let mut nl: usize = 0;
    while nl < 100 && b[pos + nl] != 0
        invariant
            nl <= 100,
            forall|j: int| 0 <= j < nl ==> #[trigger] t[j] != 0,
        decreases 100 - nl,
    {
        nl = nl + 1;
    }
    proof {
        assert(forall|j: int| 0 <= j < nl ==> #[trigger] hdr.take(100)[j] != 0);
        if nl < 100 {
            assert(hdr.take(100)[nl as int] == 0);
        }
        lemma_nul_index_char(hdr.take(100), nl as int);
    }
    // the magic field
    if !(b[pos + 257] == 117 && b[pos + 258] == 115 && b[pos + 259] == 116 && b[pos + 260] == 97
        && b[pos + 261] == 114 && b[pos + 262] == 0) {
        proof {
            assert(hdr.subrange(257, 263) != magic_bytes()) by {
                if hdr.subrange(257, 263) == magic_bytes() {
                    assert(hdr.subrange(257, 263)[0] == 117);
                    assert(hdr.subrange(257, 263)[1] == 115);
                    assert(hdr.subrange(257, 263)[2] == 116);
                    assert(hdr.subrange(257, 263)[3] == 97);
                    assert(hdr.subrange(257, 263)[4] == 114);
                    assert(hdr.subrange(257, 263)[5] == 0);
                }
            }
        }
        return None;
    }
    proof {
        assert(hdr.subrange(257, 263) =~= magic_bytes());
    }
    // the size field: eleven octal digits and a NUL
    let ghost sizef = hdr.subrange(124, 135);
    let mut size: u64 = 0;
    let mut j: usize = 0;
    while j < 11
        invariant
            j <= 11,
            forall|i: int| 0 <= i < j ==> 48 <= #[trigger] sizef[i] <= 55,
            size == octal_val(sizef.take(j as int)),
            size < pow8(j as nat),
        decreases 11 - j,
    {
        let c = b[pos + 124 + j];
        proof {
            assert(sizef[j as int] == hdr[124 + j as int]);
            assert(hdr[124 + j as int] == t[124 + j as int]);
            assert(t[124 + j as int] == b@[pos + 124 + j]);
        }
        if c < 48 || c > 55 {
            proof {
                assert(!(48 <= sizef[j as int] <= 55));
                assert(!all_octal(sizef));
            }
            return None;
        }
        proof {
            assert(sizef.take(j + 1).drop_last() =~= sizef.take(j as int));
            assert(sizef.take(j + 1).last() == sizef[j as int]);
            assert(pow8((j + 1) as nat) == 8 * pow8(j as nat));
            assert(size * 8 + 7 < 8 * pow8(j as nat)) by (nonlinear_arith)
                requires
                    size < pow8(j as nat),
            ;
            lemma_pow8_11();
            assert(pow8(j as nat) <= pow8(11)) by {
                lemma_pow8_le(j as nat, 11);
            }
        }
        size = size * 8 + ((c - 48) as u64);
        j = j + 1;
    }
    proof {
        assert(sizef.take(11) =~= sizef);
        lemma_pow8_11();
    }
    if b[pos + 135] != 0 {
        return None;
    }
    // total bytes this entry occupies
    let rem = size % 512;
    let pad: u64 = if rem == 0 {
        0
    } else {
        512 - rem
    };
    let total: u64 = 512 + size + pad;
    if total > (n - pos) as u64 {
        return None;
    }
    let total = total as usize;
    let size = size as usize;
    let tf = b[pos + 156];
    proof {
        assert(hdr[156] == t[156]);
        assert(t[156] == b@[pos + 156]);
    }
    if tf == 76 {
        // a long-name entry: its content, less one trailing NUL, names
        // the entry that follows
        if size < 2 {
            return None;
        }
        proof {
            assert(t[512 + size - 1] == b@[pos + 512 + size - 1]);
        }
        if b[pos + 512 + size - 1] != 0 {
            return None;
        }
        let mut name: Vec<u8> = Vec::new();
        name.extend_from_slice(&b[pos + 512..pos + 512 + size - 1]);
        let ghost nm = name@;
        proof {
            assert(nm =~= t.subrange(512, 512 + size - 1));
            assert(t.skip(total as int) =~= b@.skip(pos + total as int));
        }
        match parse_at(b, pos + total) {
            None => None,
            Some(mut v) => {
                if v.len() == 0 {
                    return None;
                }
                let ghost vs = entry_views(v@);
                let first = v.remove(0);
                let ghost dv = first.data@;
                proof {
                    assert(dv == vs[0].data);
                }
                let entry = TarEntry { name, data: first.data };
                proof {
                    assert(entry@.name == nm);
                    assert(entry@.data == dv);
                }
                v.insert(0, entry);
                proof {
                    assert(entry_views(v@) =~~= vs.update(
                        0,
                        TarEntryView { name: t.subrange(512, 512 + size - 1), data: vs[0].data },
                    ));
                }
                Some(v)
            },
        }
    } else {
        if nl == 0 {
            return None;
        }
        let mut data: Vec<u8> = Vec::new();
        data.extend_from_slice(&b[pos + 512..pos + 512 + size]);
        let mut name: Vec<u8> = Vec::new();
        name.extend_from_slice(&b[pos..pos + nl]);
        proof {
            assert(data@ =~= t.subrange(512, 512 + size as int));
            assert(name@ =~= hdr.take(nl as int));
            assert(t.skip(total as int) =~= b@.skip(pos + total as int));
        }
        match parse_at(b, pos + total) {
            None => None,
            Some(mut v) => {
                let ghost vs = entry_views(v@);
                let entry = TarEntry { name, data };
                v.insert(0, entry);
                proof {
                    assert(entry_views(v@) =~= seq![entry@] + vs);
                }
                Some(v)
            },
        }
    }
}

pub proof fn lemma_pow8_11()
    ensures
        pow8(11) == 8589934592,
{
    assert(pow8(0) == 1);
    assert(pow8(1) == 8);
    assert(pow8(2) == 64);
    assert(pow8(3) == 512);
    assert(pow8(4) == 4096);
    assert(pow8(5) == 32768);
    assert(pow8(6) == 262144);
    assert(pow8(7) == 2097152);
    assert(pow8(8) == 16777216);
    assert(pow8(9) == 134217728);
    assert(pow8(10) == 1073741824);
    assert(pow8(11) == 8589934592);
}

proof fn lemma_pow8_le(a: nat, c: nat)
    requires
        a <= c,
    ensures
        pow8(a) <= pow8(c),
    decreases c,
{
    if a < c {
        lemma_pow8_le(a, (c - 1) as nat);
        assert(pow8(c) == 8 * pow8((c - 1) as nat));
    }
}

proof fn lemma_entries_size_snoc(es: Seq<TarEntryView>, k: int)
    requires
        0 <= k < es.len(),
    ensures
        entries_size(es.take(k + 1)) == entries_size(es.take(k)) + entry_size(es[k]),
    decreases es.len(),
{
    if k == 0 {
        assert(es.take(1).drop_first() =~= es.take(0));
        assert(es.take(1)[0] == es[0]);
    } else {
        let d = es.drop_first();
        assert(es.take(k + 1).drop_first() =~= d.take(k));
        assert(es.take(k).drop_first() =~= d.take(k - 1));
        assert(es.take(k + 1)[0] == es[0]);
        assert(es.take(k)[0] == es[0]);
        lemma_entries_size_snoc(d, k - 1);
        assert(d[k - 1] == es[k]);
    }
}

proof fn lemma_entries_size_mono(es: Seq<TarEntryView>, j: int)
    requires
        0 <= j <= es.len(),
    ensures
        entries_size(es.take(j)) <= entries_size(es),
    decreases es.len() - j,
{
    if j < es.len() {
        lemma_entries_size_mono(es, j + 1);
        lemma_entries_size_snoc(es, j);
    } else {
        assert(es.take(j) =~= es);
    }
}

/// The number of bytes the archive for `es` would occupy, or nothing
/// where it exceeds the machine's address space: callers check this
/// before asking for the archive.
#[verifier::loop_isolation(false)]
pub fn archive_size(es: &Vec<TarEntry>) -> (r: Option<usize>)
    requires
        wf_entries(entry_views(es@)),
    ensures
        match r {
            Some(n) => n == entries_size(entry_views(es@)) + 1024,
            None => entries_size(entry_views(es@)) + 1024 > usize::MAX,
        },
{
    proof {
        lemma_pow8_11();
    }
    let ghost evs = entry_views(es@);
    let mut sum: usize = 0;
    let mut k: usize = 0;
    while k < es.len()
        invariant
            k <= es@.len(),
            sum == entries_size(evs.take(k as int)),
        decreases es@.len() - k,
    {
        let e = &es[k];
        proof {
            assert(evs[k as int] == es@[k as int]@);
            assert(wf_entry(evs[k as int]));
        }
        let dlen = e.data.len() as u64;
        let dr = dlen % 512;
        let dpad: u64 = if dr == 0 {
            0
        } else {
            512 - dr
        };
        let mut term: u64 = 512 + dlen + dpad;
        if e.name.len() > 100 {
            let lsize = e.name.len() as u64 + 1;
            let lr = lsize % 512;
            let lpad: u64 = if lr == 0 {
                0
            } else {
                512 - lr
            };
            term = term + 512 + lsize + lpad;
        }
        proof {
            lemma_entries_size_snoc(evs, k as int);
            assert(term == entry_size(evs[k as int]));
        }
        if term > (usize::MAX - sum) as u64 {
            proof {
                lemma_entries_size_mono(evs, k as int + 1);
            }
            return None;
        }
        sum = sum + term as usize;
        k = k + 1;
    }
    proof {
        assert(evs.take(evs.len() as int) =~= evs);
    }
    if sum > usize::MAX - 1024 {
        return None;
    }
    Some(sum + 1024)
}

/// Whether every entry is well-formed, per `wf_entries`: callers check
/// this before asking for an archive.
#[verifier::loop_isolation(false)]
pub fn check_entries(es: &Vec<TarEntry>) -> (r: bool)
    ensures
        r == wf_entries(entry_views(es@)),
{
    proof {
        lemma_pow8_11();
    }
    let mut i: usize = 0;
    while i < es.len()
        invariant
            i <= es@.len(),
            forall|j: int| 0 <= j < i ==> wf_entry(#[trigger] entry_views(es@)[j]),
        decreases es@.len() - i,
    {
        let e = &es[i];
        if e.name.len() < 1 || !((e.name.len() as u64) < 8589934591u64) {
            proof {
                assert(!wf_name(entry_views(es@)[i as int].name));
            }
            return false;
        }
        let mut k: usize = 0;
        while k < e.name.len()
            invariant
                k <= e.name@.len(),
                forall|j: int| 0 <= j < k ==> #[trigger] e.name@[j] != 0,
            decreases e.name@.len() - k,
        {
            if e.name[k] == 0 {
                proof {
                    assert(entry_views(es@)[i as int].name[k as int] == 0);
                    assert(!wf_name(entry_views(es@)[i as int].name));
                }
                return false;
            }
            k = k + 1;
        }
        if !((e.data.len() as u64) < 8589934592u64) {
            proof {
                assert(!wf_entry(entry_views(es@)[i as int]));
            }
            return false;
        }
        proof {
            assert(wf_entry(entry_views(es@)[i as int]));
        }
        i = i + 1;
    }
    true
}

/// Parses whole archive bytes, per `parse_tar`.
pub fn parse_archive(b: &Vec<u8>) -> (r: Option<Vec<TarEntry>>)
    ensures
        match parse_tar(b@) {
            Some(es) => r is Some && entry_views(r->0@) == es,
            None => r is None,
        },
{
    proof {
        assert(b@.skip(0) =~= b@);
    }
    parse_at(b, 0)
}

} // verus!
