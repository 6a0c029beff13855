//! The memory model: section byte blocks keyed by disjoint virtual
//! address ranges, loaded from an executable image, answering byte reads
//! by address. The range-keyed store and the image loader are outside
//! collaborators behind trusted contracts.

use vstd::prelude::*;

use object::{Object, ObjectSection};

use crate::errors::AnalysisError;
use crate::render::{chars_to_string, digit_char, emit_digit, emit_hex, emit_str_chars, hex_digits};

verus! {

/// A virtual address.
#[derive(Clone, Copy)]
pub struct VirtualMemory(pub u64);

/// A physical address.
#[derive(Clone, Copy)]
pub struct PhysicalMemory(pub u64);

/// One loaded section: its name, the virtual address its bytes start at,
/// and the bytes themselves, owned outright and immutable after
/// construction.
#[derive(Clone, PartialEq, Eq)]
pub struct Section {
    pub name: String,
    pub start: u64,
    pub block: Vec<u8>,
}

/// Mathematical image of a `Section`.
pub struct SectionV {
    pub name: Seq<char>,
    pub start: u64,
    pub bytes: Seq<u8>,
}

impl View for Section {
    type V = SectionV;

    open spec fn view(&self) -> SectionV {
        SectionV { name: self.name@, start: self.start, bytes: self.block@ }
    }
}

#[verifier::external_type_specification]
#[verifier::external_body]
#[verifier::reject_recursive_types(K)]
#[verifier::reject_recursive_types(V)]
pub struct ExRangeMap<K, V>(rangemap::RangeMap<K, V>);

/// What a section store holds: the section covering each contained
/// address.
pub uninterp spec fn section_points(m: rangemap::RangeMap<u64, Section>) -> Map<int, SectionV>;

/// Relies on rangemap::RangeMap::new: a new store contains no point.
#[verifier::external_body]
fn section_map_new() -> (r: rangemap::RangeMap<u64, Section>)
    ensures
        section_points(r) =~= Map::empty(),
{
    rangemap::RangeMap::new()
}

/// Relies on rangemap::RangeMap::insert: afterwards every point of
/// `[start, end)` maps to the inserted value, overwriting whatever parts
/// of older ranges it overlaps, and no other point changes. The insert
/// panics only on an empty range, which the caller rules out.
#[verifier::external_body]
fn section_map_insert(m: &mut rangemap::RangeMap<u64, Section>, start: u64, end: u64, s: Section)
    requires
        start < end,
    ensures
        forall|p: int|
            #![trigger section_points(*final(m)).dom().contains(p)]
            section_points(*final(m)).dom().contains(p) == ((start <= p < end) || section_points(
                *old(m),
            ).dom().contains(p)),
        forall|p: int|
            #![trigger section_points(*final(m))[p]]
            section_points(*final(m)).dom().contains(p) ==> section_points(*final(m))[p] == (
            if start <= p < end {
                s@
            } else {
                section_points(*old(m))[p]
            }),
{
    m.insert(start..end, s);
}

/// Relies on rangemap::RangeMap::get: the stored value whose range covers
/// the point, if any range does.
#[verifier::external_body]
fn section_map_get(m: &rangemap::RangeMap<u64, Section>, p: u64) -> (r: Option<Section>)
    ensures
        match r {
            Some(s) => section_points(*m).dom().contains(p as int) && s@ == section_points(
                *m,
            )[p as int],
            None => !section_points(*m).dom().contains(p as int),
        },
{
    m.get(&p).cloned()
}

/// Relies on rangemap::RangeMap::iter: every stored range in ascending
/// order, each non-empty and disjoint from the next, together covering
/// exactly the contained points with their stored sections; two touching
/// ranges never hold one and the same section, since insert coalesces
/// such neighbours into one range.
#[verifier::external_body]
fn section_map_entries(m: &rangemap::RangeMap<u64, Section>) -> (r: Vec<(u64, u64, Section)>)
    ensures
        forall|k: int| 0 <= k < r@.len() ==> (#[trigger] r@[k]).0 < r@[k].1,
        forall|k: int| 0 <= k < r@.len() - 1 ==> (#[trigger] r@[k]).1 <= r@[k + 1].0,
        forall|k: int|
            0 <= k < r@.len() - 1 ==> (#[trigger] r@[k]).1 < r@[k + 1].0 || r@[k].2@ != r@[k
                + 1].2@,
        forall|k: int, p: int|
            #![trigger r@[k], section_points(*m).dom().contains(p)]
            0 <= k < r@.len() && r@[k].0 <= p < r@[k].1 ==> section_points(*m).dom().contains(p)
                && section_points(*m)[p] == r@[k].2@,
        forall|p: int|
            section_points(*m).dom().contains(p) ==> exists|k: int|
                0 <= k < r@.len() && (#[trigger] r@[k]).0 <= p < r@[k].1,
{
    m.iter().map(|(range, s)| (range.start, range.end, s.clone())).collect()
}

/// What an address-translation map holds: for each contained point, the
/// start of its covering range and the stored translation value.
pub uninterp spec fn translation_runs(m: rangemap::RangeMap<u64, u64>) -> Map<int, (u64, u64)>;

/// Relies on rangemap::RangeMap::get_key_value: the covering range's
/// start and the stored value for a contained point, nothing otherwise.
#[verifier::external_body]
fn translation_get(m: &rangemap::RangeMap<u64, u64>, p: u64) -> (r: Option<(u64, u64)>)
    ensures
        match r {
            Some(av) => translation_runs(*m).dom().contains(p as int) && av == translation_runs(
                *m,
            )[p as int] && av.0 <= p,
            None => !translation_runs(*m).dom().contains(p as int),
        },
{
    m.get_key_value(&p).map(|(range, v)| (range.start, *v))
}

/// Translates a virtual address through a range-to-base mapping: the
/// stored base plus the offset into the covering range, or nothing when
/// no range covers the address or the sum leaves the address space.
pub fn to_physical(mapping: rangemap::RangeMap<u64, u64>, vm: VirtualMemory) -> (r: Option<
    PhysicalMemory,
>)
    ensures
        match r {
            Some(pm) => translation_runs(mapping).dom().contains(vm.0 as int) && ({
                let (start, base) = translation_runs(mapping)[vm.0 as int];
                pm.0 == base + (vm.0 - start)
            }),
            None => !translation_runs(mapping).dom().contains(vm.0 as int) || ({
                let (start, base) = translation_runs(mapping)[vm.0 as int];
                base + (vm.0 - start) > u64::MAX
            }),
        },
{
    match translation_get(&mapping, vm.0) {
        None => None,
        Some((start, base)) => {
            let offset = vm.0 - start;
            match base.checked_add(offset) {
                Some(p) => Some(PhysicalMemory(p)),
                None => None,
            }
        },
    }
}

/// The section store: disjoint `[start, end)` ranges to sections.
pub struct Memory {
    sections: rangemap::RangeMap<u64, Section>,
}

impl View for Memory {
    type V = Map<int, SectionV>;

    closed spec fn view(&self) -> Map<int, SectionV> {
        section_points(self.sections)
    }
}

/// The model after laying `s` over `m`: every address of `s`'s span maps
/// to `s`, every other address keeps what it had.
pub open spec fn with_section(m: Map<int, SectionV>, s: SectionV) -> Map<int, SectionV> {
    Map::new(
        |p: int| (s.start <= p < s.start + s.bytes.len()) || m.dom().contains(p),
        |p: int|
            if s.start <= p < s.start + s.bytes.len() {
                s
            } else {
                m[p]
            },
    )
}

impl Memory {
    /// Every mapped address lies inside the span of the section it maps
    /// to, and every span stays inside the address space, so reads
    /// resolve to an in-block offset.
    pub open spec fn wf(self) -> bool {
        forall|p: int|
            self@.dom().contains(p) ==> ({
                let s = #[trigger] self@[p];
                &&& s.start <= p < s.start + s.bytes.len()
                &&& s.start + s.bytes.len() <= u64::MAX
            })
    }

    /// An empty memory: no address is mapped.
    pub fn new() -> (m: Memory)
        ensures
            m@ == Map::<int, SectionV>::empty(),
            m.wf(),
    {
        let m = Memory { sections: section_map_new() };
        proof {
            assert(m.wf());
        }
        m
    }

    /// Lays a section over the memory. Succeeds exactly when the section
    /// holds at least one byte and its span stays inside the address
    /// space; a later section shadows whatever part of an older one it
    /// overlaps.
    pub fn insert_section(&mut self, sec: Section) -> (ok: bool)
        ensures
            ok == (sec.block@.len() > 0 && sec.start + sec.block@.len() <= u64::MAX),
            ok ==> final(self)@ == with_section(old(self)@, sec@),
            !ok ==> final(self)@ == old(self)@,
            old(self).wf() ==> final(self).wf(),
    {
        if sec.block.len() == 0 {
            return false;
        }
        let len: u64 = sec.block.len() as u64;
        let ghost s = sec@;
        match sec.start.checked_add(len) {
            None => false,
            Some(end) => {
                section_map_insert(&mut self.sections, sec.start, end, sec);
                proof {
                    assert(self@ =~= with_section(old(self)@, s));
                }
                true
            },
        }
    }

    /// Resolves an address to its in-section offset and the section bytes
    /// from that offset on; reports an unmapped address by returning
    /// nothing, never by failing.
    pub fn read(&self, addr: u64) -> (r: Option<(u64, Vec<u8>)>)
        ensures
            match r {
                Some(pair) => self@.dom().contains(addr as int) && ({
                    let s = self@[addr as int];
                    &&& s.start <= addr < s.start + s.bytes.len()
                    &&& pair.0 == addr - s.start
                    &&& pair.1@ == s.bytes.skip(addr - s.start)
                }),
                None => !self@.dom().contains(addr as int) || ({
                    let s = self@[addr as int];
                    !(s.start <= addr < s.start + s.bytes.len())
                }),
            },
    {
        match section_map_get(&self.sections, addr) {
            None => None,
            Some(sec) => {
                if addr < sec.start {
                    return None;
                }
                let off = addr - sec.start;
                if off >= sec.block.len() as u64 {
                    return None;
                }
                let mut bytes: Vec<u8> = Vec::new();
                let mut i: usize = off as usize;
                while i < sec.block.len()
                    invariant
                        off < sec.block.len(),
                        off as usize <= i <= sec.block.len(),
                        bytes@ == sec.block@.subrange(off as int, i as int),
                    decreases sec.block.len() - i,
                {
                    bytes.push(sec.block[i]);
                    i = i + 1;
                }
                proof {
                    assert(bytes@ =~= sec@.bytes.skip(addr - sec@.start));
                }
                Some((off, bytes))
            },
        }
    }
}

/// A section as the executable loader reports it: name, virtual address,
/// size in memory, and the file-backed byte range if there is one.
pub struct SectionHeader {
    pub name: String,
    pub addr: u64,
    pub size: u64,
    pub has_file: bool,
    pub file_off: u64,
    pub file_len: u64,
}

/// Mathematical image of a `SectionHeader`.
pub struct SectionHeaderV {
    pub name: Seq<char>,
    pub addr: u64,
    pub size: u64,
    pub has_file: bool,
    pub file_off: u64,
    pub file_len: u64,
}

impl View for SectionHeader {
    type V = SectionHeaderV;

    open spec fn view(&self) -> SectionHeaderV {
        SectionHeaderV {
            name: self.name@,
            addr: self.addr,
            size: self.size,
            has_file: self.has_file,
            file_off: self.file_off,
            file_len: self.file_len,
        }
    }
}

/// The images of a whole section table.
pub open spec fn header_views(s: Seq<SectionHeader>) -> Seq<SectionHeaderV> {
    s.map_values(|h: SectionHeader| h@)
}

/// What the executable loader reads out of an image: its entry point and
/// its section table, or nothing when the bytes are not a recognized
/// executable format. Parsing is a function of the bytes alone.
pub uninterp spec fn image_of(data: Seq<u8>) -> Option<(u64, Seq<SectionHeaderV>)>;

/// Relies on object::File::parse and the Object/ObjectSection accessors
/// entry, sections, name, address, size and file_range: enumerates the
/// image's sections in order; fails exactly where the bytes cannot be
/// parsed (a section whose name cannot be read counts as such a failure).
#[verifier::external_body]
fn parse_image(data: &[u8]) -> (r: Option<(u64, Vec<SectionHeader>)>)
    ensures
        match r {
            Some(pair) => image_of(data@) == Some((pair.0, header_views(pair.1@))),
            None => image_of(data@) is None,
        },
{
    let file = match object::File::parse(data) { Ok(f) => f, Err(_) => return None };
    let mut hs = Vec::new();
    for s in file.sections() {
        let name = match s.name() { Ok(n) => n.to_string(), Err(_) => return None };
        let (file_off, file_len) = s.file_range().unwrap_or((0, 0));
        hs.push(SectionHeader { name, addr: s.address(), size: s.size(),
            has_file: s.file_range().is_some(), file_off, file_len });
    }
    Some((file.entry(), hs))
}

/// The bytes a reported section holds once loaded: exactly `size` bytes,
/// drawn from the file-backed range and zero-padded past its end, or all
/// zeros without file backing.
pub open spec fn fill_bytes(data: Seq<u8>, h: SectionHeaderV) -> Seq<u8> {
    Seq::new(
        h.size as nat,
        |i: int|
            if h.has_file && i < h.file_len && h.file_off + i < data.len() {
                data[h.file_off + i]
            } else {
                0u8
            },
    )
}

/// Whether a reported section can be realized: a file-backed range that
/// lies within the image bytes, and a span that stays inside the address
/// space and the machine's allocation limit.
pub open spec fn header_ok(data: Seq<u8>, h: SectionHeaderV) -> bool {
    &&& h.has_file ==> h.file_off + h.file_len <= data.len()
    &&& h.addr + h.size <= u64::MAX
    &&& h.size <= usize::MAX
}

/// The memory model after loading the first `k` reported sections, later
/// ones laid over earlier ones; a zero-sized section holds no address.
pub open spec fn loaded_model(data: Seq<u8>, hs: Seq<SectionHeaderV>, k: int) -> Map<int, SectionV>
    decreases k,
{
    if k <= 0 {
        Map::empty()
    } else {
        let m = loaded_model(data, hs, k - 1);
        let h = hs[k - 1];
        if h.size == 0 {
            m
        } else {
            with_section(m, SectionV { name: h.name, start: h.addr, bytes: fill_bytes(data, h) })
        }
    }
}

/// Whether the image parses and every reported section can be realized.
pub open spec fn load_ok(data: Seq<u8>) -> bool {
    image_of(data) matches Some(pair) && forall|k: int|
        0 <= k < pair.1.len() ==> #[trigger] header_ok(data, pair.1[k])
}

/// One unrealizable reported section refutes `load_ok`.
proof fn lemma_not_load_ok(data: Seq<u8>, entry: u64, hs: Seq<SectionHeaderV>, i: int)
    requires
        image_of(data) == Some((entry, hs)),
        0 <= i < hs.len(),
        !header_ok(data, hs[i]),
    ensures
        !load_ok(data),
{
    if load_ok(data) {
        assert((image_of(data)->Some_0).1 == hs);
        assert(header_ok(data, (image_of(data)->Some_0).1[i]));
    }
}

/// A parsed image all of whose reported sections are realizable loads.
proof fn lemma_load_ok(data: Seq<u8>, entry: u64, hs: Seq<SectionHeaderV>)
    requires
        image_of(data) == Some((entry, hs)),
        forall|k: int| 0 <= k < hs.len() ==> #[trigger] header_ok(data, hs[k]),
    ensures
        load_ok(data),
{
    assert forall|k: int| 0 <= k < (image_of(data)->Some_0).1.len() implies #[trigger] header_ok(
        data,
        (image_of(data)->Some_0).1[k],
    ) by {
        assert((image_of(data)->Some_0).1 == hs);
        assert(header_ok(data, hs[k]));
    }
}

impl Memory {
    /// Loads every section the executable loader reports, copying the
    /// file-backed bytes and zero-filling the rest; fails exactly when
    /// the bytes cannot be parsed as an executable image or a reported
    /// section cannot be realized.
    pub fn from_binary(binary_data: &[u8]) -> (r: Result<Memory, AnalysisError>)
        ensures
            match r {
                Ok(mem) => ({
                    &&& load_ok(binary_data@)
                    &&& image_of(binary_data@) matches Some(pair) && mem@ == loaded_model(
                        binary_data@,
                        pair.1,
                        pair.1.len() as int,
                    )
                    &&& mem.wf()
                }),
                Err(e) => e == AnalysisError::MalformedImage && !load_ok(binary_data@),
            },
    {
        let parsed = match parse_image(binary_data) {
            None => return Err(AnalysisError::MalformedImage),
            Some(p) => p,
        };
        let entry = parsed.0;
        let headers = parsed.1;
        let ghost hs = header_views(headers@);
        let mut mem = Memory::new();
        let mut i: usize = 0;
        while i < headers.len()
            invariant
                0 <= i <= headers.len(),
                image_of(binary_data@) == Some((entry, hs)),
                hs == header_views(headers@),
                hs.len() == headers@.len(),
                forall|k: int| 0 <= k < i ==> header_ok(binary_data@, #[trigger] hs[k]),
                mem@ == loaded_model(binary_data@, hs, i as int),
                mem.wf(),
            decreases headers.len() - i,
        {
            let ghost hv = hs[i as int];
            proof {
                assert(hv == headers@[i as int]@);
                assert(binary_data@.len() == binary_data.len());
            }
            let has_file = headers[i].has_file;
            let file_off = headers[i].file_off;
            let hdr_file_len = headers[i].file_len;
            let hdr_size = headers[i].size;
            let addr = headers[i].addr;
            if has_file {
                match file_off.checked_add(hdr_file_len) {
                    None => {
                        proof {
                            lemma_not_load_ok(binary_data@, entry, hs, i as int);
                        }
                        return Err(AnalysisError::MalformedImage);
                    },
                    Some(e) => {
                        if e > binary_data.len() as u64 {
                            proof {
                                lemma_not_load_ok(binary_data@, entry, hs, i as int);
                            }
                            return Err(AnalysisError::MalformedImage);
                        }
                    },
                }
            }
            if hdr_size > usize::MAX as u64 {
                proof {
                    lemma_not_load_ok(binary_data@, entry, hs, i as int);
                }
                return Err(AnalysisError::MalformedImage);
            }
            if addr.checked_add(hdr_size).is_none() {
                proof {
                    lemma_not_load_ok(binary_data@, entry, hs, i as int);
                }
                return Err(AnalysisError::MalformedImage);
            }
            let size: usize = hdr_size as usize;
            let file_len: usize = if has_file {
                if hdr_file_len > hdr_size {
                    size
                } else {
                    hdr_file_len as usize
                }
            } else {
                0
            };
            let mut block: Vec<u8> = Vec::new();
            let mut j: usize = 0;
            while j < size
                invariant
                    0 <= j <= size,
                    size == hv.size,
                    has_file == hv.has_file,
                    file_off == hv.file_off,
                    hv.has_file ==> hv.file_off + hv.file_len <= binary_data@.len(),
                    binary_data@.len() <= usize::MAX,
                    file_len <= size,
                    file_len == if hv.has_file && hv.file_len <= hv.size {
                        hv.file_len as int
                    } else if hv.has_file {
                        hv.size as int
                    } else {
                        0
                    },
                    block@ == fill_bytes(binary_data@, hv).subrange(0, j as int),
                decreases size - j,
            {
                proof {
                    assert(fill_bytes(binary_data@, hv).len() == hv.size);
                }
                if j < file_len {
                    block.push(binary_data[file_off as usize + j]);
                } else {
                    block.push(0);
                }
                proof {
                    assert(block@ =~= fill_bytes(binary_data@, hv).subrange(0, j + 1));
                }
                j = j + 1;
            }
            proof {
                assert(block@ =~= fill_bytes(binary_data@, hv));
                assert(header_ok(binary_data@, hv));
            }
            if size > 0 {
                let sec = Section { name: headers[i].name.clone(), start: addr, block };
                let ok = mem.insert_section(sec);
                proof {
                    assert(ok);
                    assert(mem@ =~= loaded_model(binary_data@, hs, i + 1));
                }
            } else {
                proof {
                    assert(mem@ =~= loaded_model(binary_data@, hs, i + 1));
                }
            }
            i = i + 1;
        }
        proof {
            lemma_load_ok(binary_data@, entry, hs);
        }
        Ok(mem)
    }
}


/// A run of space characters.
pub open spec fn spaces(n: int) -> Seq<char> {
    Seq::new(if n >= 0 { n as nat } else { 0 }, |i: int| ' ')
}

/// `s` padded with spaces on the left up to width `w`.
pub open spec fn pad_left(s: Seq<char>, w: int) -> Seq<char> {
    spaces(w - s.len()) + s
}

/// `s` padded with spaces on the right up to width `w`.
pub open spec fn pad_right(s: Seq<char>, w: int) -> Seq<char> {
    s + spaces(w - s.len())
}

/// One byte as two uppercase hexadecimal digits.
pub open spec fn byte_hex(b: u8) -> Seq<char> {
    seq![digit_char(b as int / 16), digit_char(b as int % 16)]
}

/// The hexadecimal column of one dump line from position `j` on: two
/// digits per byte, a space after every fourth byte.
pub open spec fn hex_col(chunk: Seq<u8>, j: int) -> Seq<char>
    decreases chunk.len() - j,
{
    if j < 0 || j >= chunk.len() {
        Seq::empty()
    } else {
        byte_hex(chunk[j]) + (if j % 4 == 3 {
            seq![' ']
        } else {
            Seq::empty()
        }) + hex_col(chunk, j + 1)
    }
}

/// A byte in the character column: itself if printable ASCII, a dot
/// otherwise.
pub open spec fn printable_char(b: u8) -> char {
    if 0x20 <= b <= 0x7E {
        b as char
    } else {
        '.'
    }
}

/// The character column of one dump line.
pub open spec fn ascii_col(chunk: Seq<u8>) -> Seq<char> {
    chunk.map_values(|b: u8| printable_char(b))
}

/// One dump line: the address right-aligned to five hexadecimal digits,
/// a space, the hexadecimal column left-padded to thirty-six characters,
/// the character column, and a line break.
pub open spec fn dump_line(chunk: Seq<u8>, addr: int) -> Seq<char> {
    pad_left(hex_digits(addr), 5) + seq![' '] + pad_right(hex_col(chunk, 0), 36) + ascii_col(chunk)
        + seq!['\n']
}

/// The dump lines of a byte block, sixteen bytes per line.
pub open spec fn dump_lines(bytes: Seq<u8>, addr: int) -> Seq<char>
    decreases bytes.len(),
{
    if bytes.len() == 0 {
        Seq::empty()
    } else if bytes.len() <= 16 {
        dump_line(bytes, addr)
    } else {
        dump_line(bytes.take(16), addr) + dump_lines(bytes.skip(16), addr + 16)
    }
}

/// The dump of one section: a heading with its name, then its byte
/// block's lines addressed from the stored range's start, then a blank
/// line.
pub open spec fn dump_section(start: int, sec: SectionV) -> Seq<char> {
    seq!['C', 'o', 'n', 't', 'e', 'n', 't', 's', ' ', 'o', 'f', ' ', 's', 'e', 'c', 't', 'i', 'o',
        'n', ' '] + sec.name + seq![':', '\n'] + dump_lines(sec.bytes, start) + seq!['\n']
}

/// The dump of the stored entries from index `k` on.
pub open spec fn dump_entries(es: Seq<(u64, u64, SectionV)>, k: int) -> Seq<char>
    decreases es.len() - k,
{
    if k < 0 || k >= es.len() {
        Seq::empty()
    } else {
        dump_section(es[k].0 as int, es[k].2) + dump_entries(es, k + 1)
    }
}

/// The images of stored entries.
pub open spec fn entry_views(s: Seq<(u64, u64, Section)>) -> Seq<(u64, u64, SectionV)> {
    s.map_values(|t: (u64, u64, Section)| (t.0, t.1, t.2@))
}

/// Whether `es` lists the stored ranges of a memory with model `m`:
/// ascending, non-empty, disjoint, covering exactly the mapped
/// addresses with their sections, and never split where two touching
/// ranges would hold one and the same section. Those conditions pin the
/// list: it is the unique such decomposition of `m`.
pub open spec fn entries_of(m: Map<int, SectionV>, es: Seq<(u64, u64, SectionV)>) -> bool {
    &&& forall|k: int| 0 <= k < es.len() ==> (#[trigger] es[k]).0 < es[k].1
    &&& forall|k: int| 0 <= k < es.len() - 1 ==> (#[trigger] es[k]).1 <= es[k + 1].0
    &&& forall|k: int|
        0 <= k < es.len() - 1 ==> (#[trigger] es[k]).1 < es[k + 1].0 || es[k].2 != es[k + 1].2
    &&& forall|k: int, p: int|
        #![trigger es[k], m.dom().contains(p)]
        0 <= k < es.len() && es[k].0 <= p < es[k].1 ==> m.dom().contains(p) && m[p] == es[k].2
    &&& forall|p: int|
        m.dom().contains(p) ==> exists|k: int| 0 <= k < es.len() && (#[trigger] es[k]).0 <= p
            < es[k].1
}

/// The emitted part of the hexadecimal column up to position `j`.
pub open spec fn hex_col_prefix(chunk: Seq<u8>, j: int) -> Seq<char>
    decreases j,
{
    if j <= 0 {
        Seq::empty()
    } else {
        hex_col_prefix(chunk, j - 1) + byte_hex(chunk[j - 1]) + (if (j - 1) % 4 == 3 {
            seq![' ']
        } else {
            Seq::empty()
        })
    }
}

/// The emitted part and the rest together make the whole column.
proof fn lemma_hex_col_decomp(chunk: Seq<u8>, j: int)
    requires
        0 <= j <= chunk.len(),
    ensures
        hex_col_prefix(chunk, j) + hex_col(chunk, j) == hex_col(chunk, 0),
    decreases j,
{
    if j == 0 {
        assert(hex_col_prefix(chunk, 0) + hex_col(chunk, 0) =~= hex_col(chunk, 0));
    } else {
        lemma_hex_col_decomp(chunk, j - 1);
        assert(hex_col(chunk, j - 1) == byte_hex(chunk[j - 1]) + (if (j - 1) % 4 == 3 {
            seq![' ']
        } else {
            Seq::<char>::empty()
        }) + hex_col(chunk, j));
        assert(hex_col_prefix(chunk, j) + hex_col(chunk, j) =~= hex_col_prefix(chunk, j - 1)
            + hex_col(chunk, j - 1));
    }
}

/// The column's exact width: two digits per byte and a space after
/// every fourth.
proof fn lemma_hex_col_prefix_len(chunk: Seq<u8>, j: int)
    requires
        0 <= j <= chunk.len(),
    ensures
        hex_col_prefix(chunk, j).len() == 2 * j + j / 4,
    decreases j,
{
    if j > 0 {
        lemma_hex_col_prefix_len(chunk, j - 1);
    }
}

/// Appends `n` spaces.
fn emit_spaces(out: &mut Vec<char>, n: usize)
    ensures
        final(out)@ == old(out)@ + spaces(n as int),
{
    let mut i: usize = 0;
    while i < n
        invariant
            0 <= i <= n,
            out@ == old(out)@ + spaces(i as int),
        decreases n - i,
    {
        out.push(' ');
        proof {
            assert(out@ =~= old(out)@ + spaces(i + 1));
        }
        i = i + 1;
    }
    proof {
        assert(out@ =~= old(out)@ + spaces(n as int));
    }
}

/// Appends a copy of the given characters.
fn emit_copy(out: &mut Vec<char>, v: &Vec<char>)
    ensures
        final(out)@ == old(out)@ + v@,
{
    let mut i: usize = 0;
    while i < v.len()
        invariant
            0 <= i <= v@.len(),
            out@ == old(out)@ + v@.subrange(0, i as int),
        decreases v@.len() - i,
    {
        out.push(v[i]);
        proof {
            assert(out@ =~= old(out)@ + v@.subrange(0, i + 1));
        }
        i = i + 1;
    }
    proof {
        assert(out@ =~= old(out)@ + v@);
    }
}

/// Appends the hexadecimal column of one line's chunk and reports its
/// width.
fn emit_hex_col(out: &mut Vec<char>, block: &Vec<u8>, off: usize, chunk_len: usize) -> (col: usize)
    requires
        off + chunk_len <= block@.len(),
        chunk_len <= 16,
    ensures
        final(out)@ == old(out)@ + hex_col(block@.skip(off as int).take(chunk_len as int), 0),
        col == hex_col(block@.skip(off as int).take(chunk_len as int), 0).len(),
        col <= 36,
{
    let ghost chunk = block@.skip(off as int).take(chunk_len as int);
    let blen = block.len();
    let mut j: usize = 0;
    let mut col: usize = 0;
    while j < chunk_len
        invariant
            0 <= j <= chunk_len,
            chunk_len <= 16,
            off + chunk_len <= block@.len(),
            chunk == block@.skip(off as int).take(chunk_len as int),
            blen == block@.len(),
            out@ == old(out)@ + hex_col_prefix(chunk, j as int),
            col == hex_col_prefix(chunk, j as int).len(),
            col <= 3 * j,
        decreases chunk_len - j,
    {
        let b = block[off + j];
        proof {
            assert(chunk[j as int] == b);
        }
        emit_digit(out, b / 16);
        emit_digit(out, b % 16);
        col = col + 2;
        if j % 4 == 3 {
            out.push(' ');
            col = col + 1;
        }
        proof {
            assert(out@ =~= old(out)@ + hex_col_prefix(chunk, j + 1));
        }
        j = j + 1;
    }
    proof {
        lemma_hex_col_decomp(chunk, chunk_len as int);
        lemma_hex_col_prefix_len(chunk, chunk_len as int);
        assert(hex_col(chunk, chunk_len as int) =~= Seq::<char>::empty());
        assert(hex_col_prefix(chunk, chunk_len as int) =~= hex_col_prefix(chunk, chunk_len as int)
            + hex_col(chunk, chunk_len as int));
        assert(out@ =~= old(out)@ + hex_col(chunk, 0));
    }
    col
}

/// Appends the printable-character column of one line's chunk.
fn emit_ascii_col(out: &mut Vec<char>, block: &Vec<u8>, off: usize, chunk_len: usize)
    requires
        off + chunk_len <= block@.len(),
    ensures
        final(out)@ == old(out)@ + ascii_col(block@.skip(off as int).take(chunk_len as int)),
{
    let ghost chunk = block@.skip(off as int).take(chunk_len as int);
    let blen = block.len();
    let mut j: usize = 0;
    while j < chunk_len
        invariant
            0 <= j <= chunk_len,
            off + chunk_len <= block@.len(),
            chunk == block@.skip(off as int).take(chunk_len as int),
            blen == block@.len(),
            out@ == old(out)@ + ascii_col(chunk).subrange(0, j as int),
        decreases chunk_len - j,
    {
        let b = block[off + j];
        proof {
            assert(chunk[j as int] == b);
        }
        if 0x20 <= b && b <= 0x7E {
            out.push(b as char);
        } else {
            out.push('.');
        }
        proof {
            assert(out@ =~= old(out)@ + ascii_col(chunk).subrange(0, j + 1));
        }
        j = j + 1;
    }
    proof {
        assert(out@ =~= old(out)@ + ascii_col(chunk));
    }
}

/// Appends one dump line for the chunk at `off`.
fn emit_dump_line(out: &mut Vec<char>, block: &Vec<u8>, off: usize, chunk_len: usize, start: u64)
    requires
        off + chunk_len <= block@.len(),
        chunk_len <= 16,
    ensures
        final(out)@ == old(out)@ + dump_line(
            block@.skip(off as int).take(chunk_len as int),
            start as int + off,
        ),
{
    let ghost chunk = block@.skip(off as int).take(chunk_len as int);
    let mut tmp: Vec<char> = Vec::new();
    emit_hex(&mut tmp, start as u128 + off as u128);
    let width = tmp.len();
    let pad: usize = if width >= 5 {
        0
    } else {
        5 - width
    };
    emit_spaces(out, pad);
    emit_copy(out, &tmp);
    proof {
        assert(spaces(pad as int) =~= spaces(5 - hex_digits(start as int + off).len()));
    }
    out.push(' ');
    let col = emit_hex_col(out, block, off, chunk_len);
    let fill: usize = if col >= 36 {
        0
    } else {
        36 - col
    };
    emit_spaces(out, fill);
    proof {
        assert(spaces(fill as int) =~= spaces(36 - hex_col(chunk, 0).len()));
    }
    emit_ascii_col(out, block, off, chunk_len);
    out.push('\n');
    proof {
        assert(final(out)@ =~= old(out)@ + dump_line(chunk, start as int + off));
    }
}

/// Appends every dump line of a section's byte block.
fn emit_dump_lines(out: &mut Vec<char>, block: &Vec<u8>, start: u64)
    ensures
        final(out)@ == old(out)@ + dump_lines(block@, start as int),
{
    let mut off: usize = 0;
    proof {
        assert(block@.skip(0) =~= block@);
    }
    while off < block.len()
        invariant
            0 <= off <= block@.len(),
            old(out)@ + dump_lines(block@, start as int) == out@ + dump_lines(
                block@.skip(off as int),
                start as int + off,
            ),
        decreases block@.len() - off,
    {
        let ghost rest = block@.skip(off as int);
        let chunk_len: usize = if block.len() - off < 16 {
            block.len() - off
        } else {
            16
        };
        emit_dump_line(out, block, off, chunk_len, start);
        proof {
            if rest.len() <= 16 {
                assert(block@.skip(off as int).take(chunk_len as int) =~= rest);
                assert(block@.skip(off + chunk_len).len() == 0);
                assert(dump_lines(block@.skip(off + chunk_len), start as int + off + chunk_len)
                    =~= Seq::<char>::empty());
            } else {
                assert(block@.skip(off as int).take(chunk_len as int) =~= rest.take(16));
                assert(block@.skip(off + chunk_len) =~= rest.skip(16));
            }
        }
        off = off + chunk_len;
    }
    proof {
        assert(block@.skip(off as int).len() == 0);
        assert(final(out)@ =~= old(out)@ + dump_lines(block@, start as int));
    }
}

/// Appends the dump of one section under its stored range start.
fn emit_dump_section(out: &mut Vec<char>, start: u64, sec: &Section)
    ensures
        final(out)@ == old(out)@ + dump_section(start as int, sec@),
{
    proof {
        reveal_strlit("Contents of section ");
        assert("Contents of section "@ =~= seq!['C', 'o', 'n', 't', 'e', 'n', 't', 's', ' ', 'o',
            'f', ' ', 's', 'e', 'c', 't', 'i', 'o', 'n', ' ']);
    }
    emit_str_chars(out, "Contents of section ");
    emit_str_chars(out, sec.name.as_str());
    out.push(':');
    out.push('\n');
    emit_dump_lines(out, &sec.block, start);
    out.push('\n');
    proof {
        assert(final(out)@ =~= old(out)@ + dump_section(start as int, sec@));
    }
}

impl Memory {
    /// A human-readable dump of every section: for each stored range, a
    /// heading with the section's name, then a sixteen-bytes-per-line
    /// listing with addresses, a hexadecimal column and a
    /// printable-character column.
    pub fn dump(&self) -> (r: String)
        ensures
            exists|es: Seq<(u64, u64, SectionV)>|
                #![all_triggers]
                entries_of(self@, es) && r@ == seq!['\n'] + dump_entries(es, 0),
    {
        let entries = section_map_entries(&self.sections);
        let ghost esv = entry_views(entries@);
        proof {
            assert forall|k: int| 0 <= k < esv.len() implies (#[trigger] esv[k]).0 < esv[k].1 by {
                assert(entries@[k].0 < entries@[k].1);
            }
            assert forall|k: int| 0 <= k < esv.len() - 1 implies (#[trigger] esv[k]).1 <= esv[k
                + 1].0 by {
                assert(entries@[k].1 <= entries@[k + 1].0);
            }
            assert forall|k: int| 0 <= k < esv.len() - 1 implies (#[trigger] esv[k]).1 < esv[k
                + 1].0 || esv[k].2 != esv[k + 1].2 by {
                assert(entries@[k].1 < entries@[k + 1].0 || entries@[k].2@ != entries@[k + 1].2@);
                assert(esv[k].2 == entries@[k].2@ && esv[k + 1].2 == entries@[k + 1].2@);
            }
            assert forall|k: int, p: int|
                #![trigger esv[k], self@.dom().contains(p)]
                0 <= k < esv.len() && esv[k].0 <= p < esv[k].1 implies self@.dom().contains(p)
                && self@[p] == esv[k].2 by {
                assert(entries@[k].0 <= p < entries@[k].1);
            }
            assert forall|p: int| self@.dom().contains(p) implies exists|k: int|
                0 <= k < esv.len() && (#[trigger] esv[k]).0 <= p < esv[k].1 by {
                let k = choose|k: int|
                    0 <= k < entries@.len() && (#[trigger] entries@[k]).0 <= p < entries@[k].1;
                assert(esv[k].0 <= p < esv[k].1);
            }
            assert(entries_of(self@, esv));
        }
        let mut out: Vec<char> = Vec::new();
        out.push('\n');
        let mut k: usize = 0;
        while k < entries.len()
            invariant
                0 <= k <= entries@.len(),
                esv == entry_views(entries@),
                entries_of(self@, esv),
                out@ + dump_entries(esv, k as int) == seq!['\n'] + dump_entries(esv, 0),
            decreases entries@.len() - k,
        {
            let ghost out_before = out@;
            let start = entries[k].0;
            emit_dump_section(&mut out, start, &entries[k].2);
            proof {
                assert(esv[k as int].0 == start && esv[k as int].2 == entries@[k as int].2@);
                assert(out@ =~= out_before + dump_section(start as int, esv[k as int].2));
                assert(out@ + dump_entries(esv, k + 1) =~= seq!['\n'] + dump_entries(esv, 0));
            }
            k = k + 1;
        }
        proof {
            assert(dump_entries(esv, entries@.len() as int) =~= Seq::<char>::empty());
            assert(out@ =~= seq!['\n'] + dump_entries(esv, 0));
        }
        chars_to_string(&out)
    }
}

/// The entry-point address the image declares, or the malformed-image
/// failure when the bytes cannot be parsed.
pub fn entry_point(binary_data: &[u8]) -> (r: Result<u64, AnalysisError>)
    ensures
        match r {
            Ok(e) => image_of(binary_data@) matches Some(pair) && pair.0 == e,
            Err(err) => err == AnalysisError::MalformedImage && image_of(binary_data@) is None,
        },
{
    match parse_image(binary_data) {
        None => Err(AnalysisError::MalformedImage),
        Some(pair) => Ok(pair.0),
    }
}

} // verus!
