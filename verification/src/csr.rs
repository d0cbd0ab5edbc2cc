//! CSR symbol-table resolution.
//!
//! At startup the device hands over a fixed-size region holding a
//! 4-byte little-endian length, a table of newline-separated records,
//! padding, and a 64-byte integrity digest over everything before the
//! digest. Resolution recomputes the digest and compares it byte for
//! byte — any mismatch is fatal, since the address map cannot be
//! trusted — then parses records of three kinds into a name-to-address
//! table: a plain register, a wide register spanning several words
//! (resolved both under its aggregate name and under per-limb indexed
//! names in descending limb order), and a base or region declaration.
//! Names are folded to lower case.

use vstd::prelude::*;
use vstd::slice::slice_subrange;
use vstd::slice::slice_to_vec;

use crate::parse::parse_num;
use crate::parse::parse_u32;
use crate::records::ascii_lower;
use crate::records::dec_str;
use crate::records::dec_str_exec;
use crate::records::lower;
use crate::records::slice_matches;
use crate::records::split_bytes;
use crate::records::split_exec;
use crate::records::COMMA;
use crate::records::CR;
use crate::records::NL;
use crate::duplicate::do_vecs_match;

verus! {

/// Why resolution failed.
#[derive(Clone, Copy, PartialEq, Eq, Structural, Debug)]
pub enum CsrError {
    /// The region is too small to hold a length prefix and a digest.
    ShortRegion,
    /// The recomputed digest differs from the stored one.
    DigestMismatch,
    /// The length prefix points past the digest.
    BadLength,
    /// A record with a known discriminator is missing fields or holds
    /// an unparsable number.
    Malformed,
    /// A name the caller requires is absent from the table.
    MissingSymbol,
}

/// The SHA-512 digest of a byte sequence; it depends on the bytes alone.
pub uninterp spec fn sha512_of(data: Seq<u8>) -> Seq<u8>;

/// Relies on sha2's `Sha512` through the `Digest::digest` convenience:
/// one call hashes the whole input, and the SHA-512 digest is 64 bytes
/// and a function of the input bytes alone.
#[verifier::external_body]
fn sha512(data: &[u8]) -> (r: Vec<u8>)
    ensures
        r@ == sha512_of(data@),
        r@.len() == 64,
{
    <sha2::Sha512 as sha2::Digest>::digest(data).to_vec()
}

/// The discriminator of a plain or wide register record.
pub open spec fn kw_csr_register() -> Seq<u8> {
    seq![99u8, 115u8, 114u8, 95u8, 114u8, 101u8, 103u8, 105u8, 115u8, 116u8, 101u8, 114u8]
}

/// The discriminator of a memory-region record.
pub open spec fn kw_memory_region() -> Seq<u8> {
    seq![109u8, 101u8, 109u8, 111u8, 114u8, 121u8, 95u8, 114u8, 101u8, 103u8, 105u8, 111u8, 110u8]
}

/// The discriminator of a base declaration record.
pub open spec fn kw_csr_base() -> Seq<u8> {
    seq![99u8, 115u8, 114u8, 95u8, 98u8, 97u8, 115u8, 101u8]
}

fn kw_csr_register_exec() -> (r: Vec<u8>)
    ensures
        r@ == kw_csr_register(),
{
    let mut r: Vec<u8> = Vec::new();
    r.push(99);
    r.push(115);
    r.push(114);
    r.push(95);
    r.push(114);
    r.push(101);
    r.push(103);
    r.push(105);
    r.push(115);
    r.push(116);
    r.push(101);
    r.push(114);
    proof {
        assert(r@ =~= kw_csr_register());
    }
    r
}

fn kw_memory_region_exec() -> (r: Vec<u8>)
    ensures
        r@ == kw_memory_region(),
{
    let mut r: Vec<u8> = Vec::new();
    r.push(109);
    r.push(101);
    r.push(109);
    r.push(111);
    r.push(114);
    r.push(121);
    r.push(95);
    r.push(114);
    r.push(101);
    r.push(103);
    r.push(105);
    r.push(111);
    r.push(110);
    proof {
        assert(r@ =~= kw_memory_region());
    }
    r
}

fn kw_csr_base_exec() -> (r: Vec<u8>)
    ensures
        r@ == kw_csr_base(),
{
    let mut r: Vec<u8> = Vec::new();
    r.push(99);
    r.push(115);
    r.push(114);
    r.push(95);
    r.push(98);
    r.push(97);
    r.push(115);
    r.push(101);
    proof {
        assert(r@ =~= kw_csr_base());
    }
    r
}

/// A line with one trailing carriage return removed.
pub open spec fn strip_cr(line: Seq<u8>) -> Seq<u8> {
    if line.len() > 0 && line.last() == CR {
        line.drop_last()
    } else {
        line
    }
}

/// The per-limb entries of a wide register: limb `n - 1 - k` sits `k`
/// words above the base, so the highest-numbered limb is at the base
/// address and limb 0 at the highest offset.
pub open spec fn wide_limbs(name: Seq<u8>, base: u32, n: u32) -> Seq<(Seq<u8>, u32)> {
    Seq::new(n as nat, |k: int| (name + dec_str(n - 1 - k), (base + 4 * k) as u32))
}

/// The entries a register record contributes: the aggregate name at the
/// base address and, when the register spans several words, one indexed
/// name per limb. `None` when the limb addresses leave 32 bits.
pub open spec fn register_entries(name: Seq<u8>, base: u32, n: u32) -> Option<
    Seq<(Seq<u8>, u32)>,
> {
    if n <= 1 {
        Some(seq![(name, base)])
    } else if base + 4 * ((n - 1) as int) <= u32::MAX {
        Some(seq![(name, base)] + wide_limbs(name, base, n))
    } else {
        None
    }
}

/// The entries one record line contributes. An empty line or an unknown
/// discriminator contributes nothing; a known discriminator with
/// missing fields or an unparsable number is malformed (`None`).
pub open spec fn line_entries(raw_line: Seq<u8>) -> Option<Seq<(Seq<u8>, u32)>> {
    let line = strip_cr(raw_line);
    if line.len() == 0 {
        Some(Seq::empty())
    } else {
        let fs = split_bytes(line, COMMA);
        if fs[0] == kw_csr_register() {
            if fs.len() < 4 {
                None
            } else {
                match (parse_num(fs[2]), parse_num(fs[3])) {
                    (Some(base), Some(n)) => register_entries(lower(fs[1]), base, n),
                    _ => None,
                }
            }
        } else if fs[0] == kw_memory_region() || fs[0] == kw_csr_base() {
            if fs.len() < 3 {
                None
            } else {
                match parse_num(fs[2]) {
                    Some(base) => Some(seq![(lower(fs[1]), base)]),
                    None => None,
                }
            }
        } else {
            Some(Seq::empty())
        }
    }
}

/// The concatenated entries of a sequence of record lines, or `None`
/// when any line is malformed.
pub open spec fn entries_of_lines(lines: Seq<Seq<u8>>) -> Option<Seq<(Seq<u8>, u32)>>
    decreases lines.len(),
{
    if lines.len() == 0 {
        Some(Seq::empty())
    } else {
        match line_entries(lines[0]) {
            None => None,
            Some(es) => match entries_of_lines(lines.skip(1)) {
                None => None,
                Some(rest) => Some(es + rest),
            },
        }
    }
}

/// The entries of a whole table payload, in record order.
pub open spec fn table_entries(payload: Seq<u8>) -> Option<Seq<(Seq<u8>, u32)>> {
    entries_of_lines(split_bytes(payload, NL))
}

/// The address a name resolves to: that of the latest entry bearing the
/// name, matching the insert-overwrites behaviour of building a map.
pub open spec fn lookup_entries(es: Seq<(Seq<u8>, u32)>, name: Seq<u8>) -> Option<u32>
    decreases es.len(),
{
    if es.len() == 0 {
        None
    } else if es.last().0 == name {
        Some(es.last().1)
    } else {
        lookup_entries(es.drop_last(), name)
    }
}

/// The value of a 4-byte little-endian length prefix.
pub open spec fn le32(s: Seq<u8>) -> int {
    s[0] + 0x100 * s[1] + 0x1_0000 * s[2] + 0x100_0000 * s[3]
}

/// Whether the stored digest equals the digest of everything before it.
pub open spec fn digest_ok(raw: Seq<u8>) -> bool {
    raw.subrange(raw.len() - 64, raw.len() as int) == sha512_of(
        raw.subrange(0, raw.len() - 64),
    )
}

/// The table length the region claims.
pub open spec fn payload_len(raw: Seq<u8>) -> int {
    le32(raw.subrange(0, 4))
}

/// Whether the claimed table fits between the length prefix and the
/// digest.
pub open spec fn length_fits(raw: Seq<u8>) -> bool {
    4 + payload_len(raw) <= raw.len() - 64
}

/// The table bytes the region carries.
pub open spec fn payload(raw: Seq<u8>) -> Seq<u8> {
    raw.subrange(4, 4 + payload_len(raw))
}

/// What resolving a region yields: its entries in record order, or the
/// first failure in checking order — region size, digest, length
/// prefix, record syntax.
pub open spec fn resolve_spec(raw: Seq<u8>) -> Result<Seq<(Seq<u8>, u32)>, CsrError> {
    if raw.len() < 68 {
        Err(CsrError::ShortRegion)
    } else if !digest_ok(raw) {
        Err(CsrError::DigestMismatch)
    } else if !length_fits(raw) {
        Err(CsrError::BadLength)
    } else {
        match table_entries(payload(raw)) {
            None => Err(CsrError::Malformed),
            Some(es) => Ok(es),
        }
    }
}

/// The name and address a built entry holds.
pub open spec fn entry_view(e: (Vec<u8>, u32)) -> (Seq<u8>, u32) {
    (e.0@, e.1)
}

/// The views of a sequence of built entries.
pub open spec fn entries_seq_view(s: Seq<(Vec<u8>, u32)>) -> Seq<(Seq<u8>, u32)> {
    s.map_values(|e: (Vec<u8>, u32)| entry_view(e))
}

/// The view of a built entry list.
pub open spec fn entries_vec_view(v: Vec<(Vec<u8>, u32)>) -> Seq<(Seq<u8>, u32)> {
    entries_seq_view(v@)
}

/// The view of an optional built entry list.
pub open spec fn opt_entries_view(r: Option<Vec<(Vec<u8>, u32)>>) -> Option<
    Seq<(Seq<u8>, u32)>,
> {
    match r {
        Some(v) => Some(entries_vec_view(v)),
        None => None,
    }
}

fn register_entries_exec(name: Vec<u8>, base: u32, n: u32) -> (r: Option<Vec<(Vec<u8>, u32)>>)
    ensures
        opt_entries_view(r) == register_entries(name@, base, n),
{
    let mut out: Vec<(Vec<u8>, u32)> = Vec::new();
    if n <= 1 {
        let ghost nv = name@;
        out.push((name, base));
        proof {
            assert(entries_vec_view(out) =~= seq![(nv, base)]);
        }
        return Some(out);
    }
    if (base as u64) + 4 * ((n - 1) as u64) > (u32::MAX as u64) {
        return None;
    }
    out.push((slice_to_vec(name.as_slice()), base));
    proof {
        assert(entries_vec_view(out) =~= seq![(name@, base)] + wide_limbs(name@, base, n).take(0));
    }
    let mut k: u32 = 0;
    while k < n
        invariant
            k <= n,
            2 <= n,
            base + 4 * ((n - 1) as int) <= u32::MAX,
            entries_vec_view(out) == seq![(name@, base)] + wide_limbs(name@, base, n).take(
                k as int,
            ),
        decreases n - k,
    {
        let mut limb = slice_to_vec(name.as_slice());
        let mut digits = dec_str_exec(n - 1 - k);
        limb.append(&mut digits);
        let addr: u32 = base + 4 * k;
        proof {
            assert(limb@ == name@ + dec_str(n - 1 - k));
            assert(wide_limbs(name@, base, n)[k as int] == (
                name@ + dec_str(n - 1 - k),
                (base + 4 * k) as u32,
            ));
            assert(wide_limbs(name@, base, n).take(k + 1) =~= wide_limbs(
                name@,
                base,
                n,
            ).take(k as int).push((name@ + dec_str(n - 1 - k), addr)));
            assert(entries_seq_view(out@.push((limb, addr))) =~= entries_seq_view(out@).push(
                (limb@, addr),
            ));
        }
        out.push((limb, addr));
        k += 1;
    }
    proof {
        assert(wide_limbs(name@, base, n).take(n as int) =~= wide_limbs(name@, base, n));
    }
    Some(out)
}

fn line_to_entries(line: &[u8]) -> (r: Option<Vec<(Vec<u8>, u32)>>)
    ensures
        opt_entries_view(r) == line_entries(line@),
{
    let n: usize = line.len();
    let stripped: &[u8] = if n > 0 && line[n - 1] == CR {
        let s = slice_subrange(line, 0, n - 1);
        proof {
            assert(s@ =~= strip_cr(line@));
        }
        s
    } else {
        line
    };
    if stripped.len() == 0 {
        let out: Vec<(Vec<u8>, u32)> = Vec::new();
        proof {
            assert(entries_vec_view(out) =~= Seq::<(Seq<u8>, u32)>::empty());
        }
        return Some(out);
    }
    let fields = split_exec(stripped, COMMA);
    let ghost fs = split_bytes(stripped@, COMMA);
    proof {
        crate::records::lemma_split_at_len(stripped@, COMMA, 0);
        assert(crate::records::pieces_view(fields@).len() == fs.len());
    }
    let kw_reg = kw_csr_register_exec();
    if do_vecs_match(&fields[0], &kw_reg) {
        if fields.len() < 4 {
            return None;
        }
        let base = match parse_u32(fields[2].as_slice()) {
            Some(b) => b,
            None => {
                return None;
            },
        };
        let count = match parse_u32(fields[3].as_slice()) {
            Some(c) => c,
            None => {
                return None;
            },
        };
        let name = ascii_lower(fields[1].as_slice());
        register_entries_exec(name, base, count)
    } else {
        let kw_mem = kw_memory_region_exec();
        let kw_base = kw_csr_base_exec();
        let is_mem = do_vecs_match(&fields[0], &kw_mem);
        let is_base = do_vecs_match(&fields[0], &kw_base);
        if is_mem || is_base {
            if fields.len() < 3 {
                return None;
            }
            let base = match parse_u32(fields[2].as_slice()) {
                Some(b) => b,
                None => {
                    return None;
                },
            };
            let name = ascii_lower(fields[1].as_slice());
            let ghost nv = name@;
            let mut out: Vec<(Vec<u8>, u32)> = Vec::new();
            out.push((name, base));
            proof {
                assert(entries_vec_view(out) =~= seq![(nv, base)]);
            }
            Some(out)
        } else {
            let out: Vec<(Vec<u8>, u32)> = Vec::new();
            proof {
                assert(entries_vec_view(out) =~= Seq::<(Seq<u8>, u32)>::empty());
            }
            Some(out)
        }
    }
}

/// The resolved symbol table: every record's names with their
/// addresses, in record order; a later record with the same name wins
/// on lookup.
pub struct CsrSymbolTable {
    /// The resolved entries in record order.
    pub entries: Vec<(Vec<u8>, u32)>,
}

impl CsrSymbolTable {
    /// The entries as a sequence of (name, address) pairs.
    pub open spec fn entries_view(self) -> Seq<(Seq<u8>, u32)> {
        entries_vec_view(self.entries)
    }

    /// The address a name resolves to, latest entry winning.
    pub open spec fn lookup(self, name: Seq<u8>) -> Option<u32> {
        lookup_entries(self.entries_view(), name)
    }

    /// Look a name up; see [`Self::lookup`].
    pub fn get(&self, name: &[u8]) -> (r: Option<u32>)
        ensures
            r == self.lookup(name@),
    {
        proof {
            assert(self.entries_view().take(self.entries@.len() as int) =~= self.entries_view());
        }
        let mut k: usize = self.entries.len();
        while k > 0
            invariant
                k <= self.entries@.len(),
                self.lookup(name@) == lookup_entries(
                    self.entries_view().take(k as int),
                    name@,
                ),
            decreases k,
        {
            proof {
                assert(self.entries_view().take(k as int).drop_last() =~= self.entries_view().take(
                    k - 1,
                ));
                assert(self.entries_view().take(k as int).last() == self.entries_view()[k - 1]);
            }
            let hit = slice_matches(self.entries[k - 1].0.as_slice(), name);
            if hit {
                return Some(self.entries[k - 1].1);
            }
            k -= 1;
        }
        None
    }

    /// Look a required name up; absence is the fatal
    /// [`CsrError::MissingSymbol`].
    pub fn require(&self, name: &[u8]) -> (r: Result<u32, CsrError>)
        ensures
            match self.lookup(name@) {
                Some(a) => r == Ok::<u32, CsrError>(a),
                None => r == Err::<u32, CsrError>(CsrError::MissingSymbol),
            },
    {
        match self.get(name) {
            Some(a) => Ok(a),
            None => Err(CsrError::MissingSymbol),
        }
    }
}

/// Resolve a table region; see [`resolve_spec`] for exactly what is
/// returned on every input.
pub fn resolve(raw: &[u8]) -> (r: Result<CsrSymbolTable, CsrError>)
    ensures
        match r {
            Ok(t) => resolve_spec(raw@) == Ok::<Seq<(Seq<u8>, u32)>, CsrError>(t.entries_view()),
            Err(e) => resolve_spec(raw@) == Err::<Seq<(Seq<u8>, u32)>, CsrError>(e),
        },
{
    let n: usize = raw.len();
    if n < 68 {
        return Err(CsrError::ShortRegion);
    }
    let computed = sha512(slice_subrange(raw, 0, n - 64));
    let stored = slice_subrange(raw, n - 64, n);
    if !slice_matches(computed.as_slice(), stored) {
        return Err(CsrError::DigestMismatch);
    }
    let b0 = raw[0] as u32;
    let b1 = raw[1] as u32;
    let b2 = raw[2] as u32;
    let b3 = raw[3] as u32;
    let csr_len: u32 = b0 + 0x100 * b1 + 0x1_0000 * b2 + 0x100_0000 * b3;
    proof {
        assert(csr_len == payload_len(raw@));
    }
    if (csr_len as u64) + 4 > ((n - 64) as u64) {
        return Err(CsrError::BadLength);
    }
    let table = slice_subrange(raw, 4, 4 + (csr_len as usize));
    proof {
        assert(table@ == payload(raw@));
    }
    let lines = split_exec(table, NL);
    let ghost lsv = crate::records::pieces_view(lines@);
    let mut entries: Vec<(Vec<u8>, u32)> = Vec::new();
    let mut i: usize = 0;
    proof {
        assert(lsv.skip(0) =~= lsv);
        match entries_of_lines(lsv) {
            Some(all) => {
                assert(Seq::<(Seq<u8>, u32)>::empty() + all =~= all);
                assert(entries_vec_view(entries) =~= Seq::<(Seq<u8>, u32)>::empty());
            },
            None => {},
        }
    }
    while i < lines.len()
        invariant
            i <= lines@.len(),
            lsv == crate::records::pieces_view(lines@),
            raw@.len() >= 68,
            digest_ok(raw@),
            length_fits(raw@),
            table_entries(payload(raw@)) == match entries_of_lines(lsv.skip(i as int)) {
                None => None::<Seq<(Seq<u8>, u32)>>,
                Some(rest) => Some(entries_vec_view(entries) + rest),
            },
        decreases lines@.len() - i,
    {
        let le = line_to_entries(lines[i].as_slice());
        proof {
            assert(lsv[i as int] == lines@[i as int]@);
            assert(lsv.skip(i as int)[0] == lsv[i as int]);
            assert(lsv.skip(i as int).skip(1) =~= lsv.skip(i + 1));
        }
        match le {
            None => {
                return Err(CsrError::Malformed);
            },
            Some(mut es) => {
                let ghost accv = entries_vec_view(entries);
                let ghost esv = entries_vec_view(es);
                proof {
                    assert(entries_seq_view(entries@ + es@) =~= accv + esv);
                    match entries_of_lines(lsv.skip(i + 1)) {
                        Some(rest) => {
                            assert((accv + esv) + rest =~= accv + (esv + rest));
                        },
                        None => {},
                    }
                }
                entries.append(&mut es);
                i += 1;
            },
        }
    }
    proof {
        assert(lsv.skip(lines@.len() as int) =~= Seq::<Seq<u8>>::empty());
        match entries_of_lines(lsv.skip(lines@.len() as int)) {
            Some(rest) => {
                assert(entries_vec_view(entries) + rest =~= entries_vec_view(entries));
            },
            None => {},
        }
    }
    let t = CsrSymbolTable { entries };
    Ok(t)
}

} // verus!
