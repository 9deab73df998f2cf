//! Content-addressed colour-profile library policy. Hosts enumerate their own
//! storage and read or write objects under their storage lock; this module
//! decides identities, quota accounting and what an entry may be used for.
use vstd::prelude::*;
use sha2::Digest;
use crate::text::{
    text_less, text_before, lemma_text_less_asymmetric, lemma_text_less_total,
    lemma_text_less_transitive, string_from_chars,
};

verus! {

/// Most profiles the library holds without a quota issue.
pub const PROFILE_LIBRARY_ENTRIES: usize = 128;
/// Most bytes (64 MiB) the library holds without a quota issue.
pub const PROFILE_LIBRARY_BYTES: u64 = 67108864;
/// Largest ICC profile (16 MiB) that is read.
pub const PROFILE_READ_LIMIT: usize = 16777216;

/// One stored profile as the host lists it, with the issue found for it.
#[derive(Clone, Debug)]
pub struct ProfileRecord {
    pub id: String,
    pub bytes: u64,
    pub issue: Option<String>,
}

/// The mathematical content of a record.
pub struct RecordView {
    pub id: Seq<char>,
    pub bytes: u64,
    pub issue: Option<Seq<char>>,
}

impl View for ProfileRecord {
    type V = RecordView;

    open spec fn view(&self) -> RecordView {
        RecordView {
            id: self.id@,
            bytes: self.bytes,
            issue: match self.issue {
                Some(s) => Some(s@),
                None => None,
            },
        }
    }
}

/// Why a library request was refused.
#[derive(Clone, Copy, Debug, PartialEq, Eq, Structural)]
pub enum ProfileError {
    /// The identity is not a library identity.
    NotImported,
    /// The profile is larger than the read limit.
    TooLarge,
    /// The stored bytes no longer hash to their identity.
    Changed,
    /// Admitting the profile would exceed the library quota.
    LibraryFull,
}

pub open spec fn spec_profile_error_message(e: ProfileError) -> Seq<char> {
    match e {
        ProfileError::NotImported => "Select an imported profile"@,
        ProfileError::TooLarge => "ICC profile exceeds 16 MiB"@,
        ProfileError::Changed => "Profile changed in storage; remove or reimport it"@,
        ProfileError::LibraryFull => "The profile library limit is 128 profiles and 64 MiB"@,
    }
}

impl ProfileError {
    pub fn message(self) -> (m: &'static str)
        ensures
            m@ == spec_profile_error_message(self),
    {
        match self {
            ProfileError::NotImported => "Select an imported profile",
            ProfileError::TooLarge => "ICC profile exceeds 16 MiB",
            ProfileError::Changed => "Profile changed in storage; remove or reimport it",
            ProfileError::LibraryFull => "The profile library limit is 128 profiles and 64 MiB",
        }
    }
}

/// The issue of an entry beyond the library quota.
pub open spec fn quota_issue() -> Seq<char> {
    "The profile library limit is 128 profiles and 64 MiB; remove unused profiles"@
}

/// The issue of an entry too large to read.
pub open spec fn size_issue() -> Seq<char> {
    "ICC profile exceeds 16 MiB"@
}

pub open spec fn is_hex_digit(c: char) -> bool {
    ('0' <= c && c <= '9') || ('a' <= c && c <= 'f')
}

/// A library identity: 64 lowercase hexadecimal digits.
pub open spec fn spec_valid_profile_id(s: Seq<char>) -> bool {
    s.len() == 64 && forall|i: int| 0 <= i < s.len() ==> is_hex_digit(#[trigger] s[i])
}

/// Whether `id` is a library identity (64 lowercase hexadecimal digits).
pub fn valid_profile_id(id: &str) -> (r: bool)
    ensures
        r == spec_valid_profile_id(id@),
{
    if id.unicode_len() != 64 {
        return false;
    }
    let mut i: usize = 0;
    while i < 64
        invariant
            id@.len() == 64,
            i <= 64,
            forall|j: int| 0 <= j < i ==> is_hex_digit(#[trigger] id@[j]),
        decreases 64 - i,
    {
        let c = id.get_char(i);
        if !(('0' <= c && c <= '9') || ('a' <= c && c <= 'f')) {
            assert(!is_hex_digit(id@[i as int]));
            return false;
        }
        i = i + 1;
    }
    true
}

/// SHA-256 of a byte string, as `sha2` computes it.
pub uninterp spec fn sha256_digest(data: Seq<u8>) -> Seq<u8>;

/// `sha2::Sha256::digest`: the digest depends on the input bytes alone and
/// is 32 bytes long.
#[verifier::external_body]
fn sha256(data: &[u8]) -> (d: Vec<u8>)
    ensures
        d@ == sha256_digest(data@),
        d@.len() == 32,
{
    sha2::Sha256::digest(data).to_vec()
}

/// The lowercase hexadecimal digit for a value below sixteen.
pub open spec fn hex_char(n: int) -> char {
    if n < 10 {
        ('0' as int + n) as char
    } else {
        ('a' as int + n - 10) as char
    }
}

/// Lowercase hexadecimal text of a byte string, two digits per byte.
pub open spec fn hex_text(d: Seq<u8>) -> Seq<char>
    decreases d.len(),
{
    if d.len() == 0 {
        Seq::empty()
    } else {
        hex_text(d.drop_last()).push(hex_char(d.last() as int / 16)).push(hex_char(d.last() as int % 16))
    }
}

fn hex_digit(n: u8) -> (c: char)
    requires
        n < 16,
    ensures
        c == hex_char(n as int),
        is_hex_digit(c),
{
    if n == 0 { '0' }
    else if n == 1 { '1' }
    else if n == 2 { '2' }
    else if n == 3 { '3' }
    else if n == 4 { '4' }
    else if n == 5 { '5' }
    else if n == 6 { '6' }
    else if n == 7 { '7' }
    else if n == 8 { '8' }
    else if n == 9 { '9' }
    else if n == 10 { 'a' }
    else if n == 11 { 'b' }
    else if n == 12 { 'c' }
    else if n == 13 { 'd' }
    else if n == 14 { 'e' }
    else { 'f' }
}

/// Hexadecimal text has two digits per byte, all of them hexadecimal.
pub proof fn lemma_hex_text(d: Seq<u8>)
    ensures
        hex_text(d).len() == 2 * d.len(),
        forall|i: int| 0 <= i < hex_text(d).len() ==> is_hex_digit(#[trigger] hex_text(d)[i]),
    decreases d.len(),
{
    if d.len() > 0 {
        lemma_hex_text(d.drop_last());
        let h = hex_text(d.drop_last());
        let x = d.last() as int;
        assert(0 <= x / 16 < 16);
        assert forall|i: int| 0 <= i < hex_text(d).len() implies is_hex_digit(#[trigger] hex_text(d)[i]) by {
            if i < h.len() {
                assert(hex_text(d)[i] == h[i]);
            }
        }
    }
}

/// The library identity of a profile: the lowercase hexadecimal SHA-256 of
/// its bytes.
pub fn profile_identity(bytes: &[u8]) -> (r: String)
    ensures
        r@ == hex_text(sha256_digest(bytes@)),
        spec_valid_profile_id(r@),
{
    let d = sha256(bytes);
    let mut chars: Vec<char> = Vec::new();
    let mut i: usize = 0;
    while i < d.len()
        invariant
            i <= d@.len(),
            chars@ == hex_text(d@.subrange(0, i as int)),
        decreases d@.len() - i,
    {
        let b = d[i];
        chars.push(hex_digit(b / 16));
        chars.push(hex_digit(b % 16));
        assert(d@.subrange(0, i as int + 1).drop_last() =~= d@.subrange(0, i as int));
        i = i + 1;
    }
    assert(d@.subrange(0, d@.len() as int) =~= d@);
    proof {
        lemma_hex_text(d@);
    }
    string_from_chars(&chars)
}

/// The outcome of checking stored `bytes` for the profile `id`.
pub open spec fn spec_check_library_profile(id: Seq<char>, bytes: Seq<u8>) -> Result<(), ProfileError> {
    if !spec_valid_profile_id(id) {
        Err(ProfileError::NotImported)
    } else if bytes.len() > PROFILE_READ_LIMIT {
        Err(ProfileError::TooLarge)
    } else if hex_text(sha256_digest(bytes)) != id {
        Err(ProfileError::Changed)
    } else {
        Ok(())
    }
}

/// An imported profile reads back: the identity given to bytes within the
/// read limit passes the check of those same bytes (every SHA-256 digest is
/// 32 bytes long).
pub proof fn lemma_imported_profile_reads_back(bytes: Seq<u8>)
    requires
        bytes.len() <= PROFILE_READ_LIMIT,
        sha256_digest(bytes).len() == 32,
    ensures
        spec_check_library_profile(hex_text(sha256_digest(bytes)), bytes) == Ok::<(), ProfileError>(()),
{
    lemma_hex_text(sha256_digest(bytes));
}

/// Checks stored bytes before they are used as the profile `id`: the id must
/// be a library identity, the bytes within the read limit, and the bytes must
/// still hash to the id.
pub fn check_library_profile(id: &str, bytes: &[u8]) -> (r: Result<(), ProfileError>)
    ensures
        r == spec_check_library_profile(id@, bytes@),
{
    if !valid_profile_id(id) {
        return Err(ProfileError::NotImported);
    }
    if bytes.len() > PROFILE_READ_LIMIT {
        return Err(ProfileError::TooLarge);
    }
    let actual = profile_identity(bytes);
    if !crate::text::same_text(actual.as_str(), id) {
        return Err(ProfileError::Changed);
    }
    Ok(())
}

/// The identity a new profile would get, refusing one above the read limit.
pub fn import_identity(bytes: &[u8]) -> (r: Result<String, ProfileError>)
    ensures
        match r {
            Ok(id) => bytes@.len() <= PROFILE_READ_LIMIT && id@ == hex_text(sha256_digest(bytes@)),
            Err(e) => bytes@.len() > PROFILE_READ_LIMIT && e == ProfileError::TooLarge,
        },
{
    if bytes.len() > PROFILE_READ_LIMIT {
        return Err(ProfileError::TooLarge);
    }
    Ok(profile_identity(bytes))
}

/// Record `q` is the first one carrying its identity, and that identity is a
/// library identity: the record the library accounts for.
pub open spec fn is_first_valid(s: Seq<ProfileRecord>, q: int) -> bool {
    &&& 0 <= q < s.len()
    &&& spec_valid_profile_id(s[q]@.id)
    &&& forall|k: int| 0 <= k < q ==> (#[trigger] s[k]@.id) != s[q]@.id
}

/// Bytes of the first `n` records.
pub open spec fn prefix_bytes(s: Seq<ProfileRecord>, n: int) -> int
    decreases n,
{
    if n <= 0 || n > s.len() {
        0
    } else {
        prefix_bytes(s, n - 1) + s[n - 1]@.bytes
    }
}

/// The issue of the entry at `index` whose own size is `bytes`, when the
/// entries up to and including it hold `total` bytes.
pub open spec fn issue_for(index: int, total: int, bytes: u64) -> Option<Seq<char>> {
    if index >= PROFILE_LIBRARY_ENTRIES || total > PROFILE_LIBRARY_BYTES {
        Some(quota_issue())
    } else if bytes > PROFILE_READ_LIMIT {
        Some(size_issue())
    } else {
        None
    }
}

/// Whether some record of `s` carries `id`.
fn has_id(s: &Vec<ProfileRecord>, id: &String) -> (r: bool)
    ensures
        r == exists|a: int| 0 <= a < s@.len() && (#[trigger] s@[a]@.id) == id@,
{
    let mut i: usize = 0;
    while i < s.len()
        invariant
            i <= s@.len(),
            forall|a: int| 0 <= a < i ==> (#[trigger] s@[a]@.id) != id@,
        decreases s@.len() - i,
    {
        if s[i].id == *id {
            assert(s@[i as int]@.id == id@);
            return true;
        }
        i = i + 1;
    }
    false
}

/// The records the library accounts for, in their original order: those
/// with a library identity, the first of each identity. `src[a]` is where
/// `k[a]` was listed, `slot[q]` where a listed record with a library
/// identity is accounted.
fn first_valid_records(records: &Vec<ProfileRecord>) -> (res: (Vec<ProfileRecord>, Ghost<Seq<int>>, Ghost<Seq<int>>))
    ensures
        ({
            let (k, src, slot) = res;
            &&& src@.len() == k@.len()
            &&& slot@.len() == records@.len()
            &&& forall|a: int| 0 <= a < k@.len() ==> is_first_valid(records@, #[trigger] src@[a])
                && records@[src@[a]]@.id == k@[a]@.id && records@[src@[a]]@.bytes == k@[a]@.bytes
            &&& forall|q: int| 0 <= q < records@.len() && spec_valid_profile_id(records@[q]@.id)
                ==> 0 <= #[trigger] slot@[q] < k@.len() && k@[slot@[q]]@.id == records@[q]@.id
            &&& forall|a: int, b: int| 0 <= a < b < k@.len() ==> (#[trigger] k@[a]@.id) != (#[trigger] k@[b]@.id)
        }),
{
    let mut k: Vec<ProfileRecord> = Vec::new();
    let ghost mut src: Seq<int> = Seq::empty();
    let ghost mut slot: Seq<int> = Seq::empty();
    let mut j: usize = 0;
    while j < records.len()
        invariant
            j <= records@.len(),
            src.len() == k@.len(),
            slot.len() == j,
            forall|a: int| 0 <= a < k@.len() ==> is_first_valid(records@, #[trigger] src[a])
                && records@[src[a]]@.id == k@[a]@.id && records@[src[a]]@.bytes == k@[a]@.bytes,
            forall|q: int| 0 <= q < j && spec_valid_profile_id(records@[q]@.id)
                ==> 0 <= #[trigger] slot[q] < k@.len() && k@[slot[q]]@.id == records@[q]@.id,
            forall|a: int, b: int| 0 <= a < b < k@.len() ==> (#[trigger] k@[a]@.id) != (#[trigger] k@[b]@.id),
        decreases records@.len() - j,
    {
        let r = &records[j];
        if valid_profile_id(r.id.as_str()) {
            if has_id(&k, &r.id) {
                proof {
                    let a = choose|a: int| 0 <= a < k@.len() && (#[trigger] k@[a]@.id) == r.id@;
                    slot = slot.push(a);
                }
            } else {
                proof {
                    assert forall|q: int| 0 <= q < j implies (#[trigger] records@[q]@.id) != records@[j as int]@.id by {
                        if records@[q]@.id == records@[j as int]@.id {
                            assert(k@[slot[q]]@.id == r.id@);
                        }
                    }
                    assert(is_first_valid(records@, j as int));
                }
                let copy = ProfileRecord { id: r.id.clone(), bytes: r.bytes, issue: None };
                let ghost before = k@;
                k.push(copy);
                proof {
                    src = src.push(j as int);
                    slot = slot.push(before.len() as int);
                    assert forall|a: int| 0 <= a < k@.len() implies is_first_valid(records@, #[trigger] src[a])
                        && records@[src[a]]@.id == k@[a]@.id && records@[src[a]]@.bytes == k@[a]@.bytes by {
                        if a < before.len() {
                            assert(k@[a] == before[a]);
                        }
                    }
                    assert forall|q: int| 0 <= q < j + 1 && spec_valid_profile_id(records@[q]@.id)
                        implies 0 <= #[trigger] slot[q] < k@.len() && k@[slot[q]]@.id == records@[q]@.id by {
                        if q < j {
                            assert(k@[slot[q]] == before[slot[q]]);
                        }
                    }
                    assert forall|a: int, b: int| 0 <= a < b < k@.len() implies (#[trigger] k@[a]@.id) != (#[trigger] k@[b]@.id) by {
                        if b < before.len() {
                            assert(k@[a] == before[a] && k@[b] == before[b]);
                        } else {
                            assert(k@[a] == before[a]);
                        }
                    }
                }
            }
        } else {
            proof {
                slot = slot.push(0);
            }
        }
        j = j + 1;
    }
    (k, Ghost(src), Ghost(slot))
}

/// `s` is strictly increasing by identity.
pub open spec fn sorted_by_id(s: Seq<ProfileRecord>) -> bool {
    forall|a: int, b: int| 0 <= a < b < s.len() ==> text_less(#[trigger] s[a]@.id, #[trigger] s[b]@.id)
}

/// Sorts records with distinct identities by identity, keeping each
/// record's identity and size: `s[a]` is `k[perm[a]]` and `k[c]` is
/// `s[inv[c]]`.
fn sort_by_id(k: &Vec<ProfileRecord>) -> (res: (Vec<ProfileRecord>, Ghost<Seq<int>>, Ghost<Seq<int>>))
    requires
        forall|a: int, b: int| 0 <= a < b < k@.len() ==> (#[trigger] k@[a]@.id) != (#[trigger] k@[b]@.id),
    ensures
        ({
            let (s, perm, inv) = res;
            &&& sorted_by_id(s@)
            &&& perm@.len() == s@.len()
            &&& inv@.len() == k@.len()
            &&& forall|a: int| 0 <= a < s@.len() ==> 0 <= #[trigger] perm@[a] < k@.len()
                && k@[perm@[a]]@.id == s@[a]@.id && k@[perm@[a]]@.bytes == s@[a]@.bytes
            &&& forall|c: int| 0 <= c < k@.len() ==> 0 <= #[trigger] inv@[c] < s@.len()
                && k@[c]@.id == s@[inv@[c]]@.id && k@[c]@.bytes == s@[inv@[c]]@.bytes
        }),
{
    let mut s: Vec<ProfileRecord> = Vec::new();
    let ghost mut perm: Seq<int> = Seq::empty();
    let ghost mut inv: Seq<int> = Seq::empty();
    let mut b: usize = 0;
    while b < k.len()
        invariant
            b <= k@.len(),
            forall|x: int, y: int| 0 <= x < y < k@.len() ==> (#[trigger] k@[x]@.id) != (#[trigger] k@[y]@.id),
            sorted_by_id(s@),
            perm.len() == s@.len(),
            inv.len() == b,
            forall|a: int| 0 <= a < s@.len() ==> 0 <= #[trigger] perm[a] < b
                && k@[perm[a]]@.id == s@[a]@.id && k@[perm[a]]@.bytes == s@[a]@.bytes,
            forall|c: int| 0 <= c < b ==> 0 <= #[trigger] inv[c] < s@.len()
                && k@[c]@.id == s@[inv[c]]@.id && k@[c]@.bytes == s@[inv[c]]@.bytes,
        decreases k@.len() - b,
    {
        let id = &k[b].id;
        let mut p: usize = 0;
        while p < s.len() && !text_before(id.as_str(), s[p].id.as_str())
            invariant
                p <= s@.len(),
                forall|a: int| 0 <= a < p ==> !text_less(id@, #[trigger] s@[a]@.id),
            decreases s@.len() - p,
        {
            p = p + 1;
        }
        let ghost before = s@;
        let ghost old_perm = perm;
        let ghost old_inv = inv;
        let rec = ProfileRecord { id: id.clone(), bytes: k[b].bytes, issue: None };
        s.insert(p, rec);
        proof {
            perm = old_perm.insert(p as int, b as int);
            inv = Seq::new(b as nat, |c: int| if old_inv[c] >= p { old_inv[c] + 1 } else { old_inv[c] }).push(p as int);
            assert forall|x: int, y: int| 0 <= x < y < s@.len() implies text_less(#[trigger] s@[x]@.id, #[trigger] s@[y]@.id) by {
                if y < p {
                    assert(s@[x] == before[x] && s@[y] == before[y]);
                } else if y == p {
                    assert(s@[x] == before[x]);
                    let c = old_perm[x];
                    assert(k@[c]@.id != k@[b as int]@.id);
                    lemma_text_less_total(before[x]@.id, id@);
                } else if x < p {
                    assert(s@[x] == before[x] && s@[y] == before[y - 1]);
                } else if x == p {
                    assert(s@[y] == before[y - 1]);
                    assert(text_less(id@, before[p as int]@.id));
                    if y - 1 > p {
                        lemma_text_less_transitive(id@, before[p as int]@.id, before[y - 1]@.id);
                    }
                } else {
                    assert(s@[x] == before[x - 1] && s@[y] == before[y - 1]);
                }
            }
            assert forall|a: int| 0 <= a < s@.len() implies 0 <= #[trigger] perm[a] < b + 1
                && k@[perm[a]]@.id == s@[a]@.id && k@[perm[a]]@.bytes == s@[a]@.bytes by {
                if a < p {
                    assert(s@[a] == before[a] && perm[a] == old_perm[a]);
                } else if a > p {
                    assert(s@[a] == before[a - 1] && perm[a] == old_perm[a - 1]);
                }
            }
            assert forall|c: int| 0 <= c < b + 1 implies 0 <= #[trigger] inv[c] < s@.len()
                && k@[c]@.id == s@[inv[c]]@.id && k@[c]@.bytes == s@[inv[c]]@.bytes by {
                if c < b {
                    if old_inv[c] >= p {
                        assert(s@[old_inv[c] + 1] == before[old_inv[c]]);
                    } else {
                        assert(s@[old_inv[c]] == before[old_inv[c]]);
                    }
                }
            }
        }
        b = b + 1;
    }
    (s, Ghost(perm), Ghost(inv))
}

proof fn lemma_prefix_bytes_agree(s: Seq<ProfileRecord>, t: Seq<ProfileRecord>, n: int)
    requires
        0 <= n <= s.len(),
        n <= t.len(),
        forall|k: int| 0 <= k < n ==> (#[trigger] s[k])@.bytes == t[k]@.bytes,
    ensures
        prefix_bytes(s, n) == prefix_bytes(t, n),
    decreases n,
{
    if n > 0 {
        lemma_prefix_bytes_agree(s, t, n - 1);
    }
}

/// `r` is the library's accounting of `records`: each entry is an accounted
/// record (same identity and size), every accounted record has an entry,
/// entries are ordered by identity, and each carries the issue the quota or
/// the read limit gives it.
pub open spec fn is_inventory_of(r: Seq<ProfileRecord>, records: Seq<ProfileRecord>) -> bool {
    &&& entries_accounted(r, records)
    &&& all_accounted(r, records)
    &&& sorted_by_id(r)
    &&& forall|i: int| 0 <= i < r.len() ==> (#[trigger] r[i])@.issue == issue_for(i, prefix_bytes(r, i + 1), r[i]@.bytes)
}

/// Each entry of `r` is an accounted record of `records`, with its size.
#[verifier::opaque]
pub open spec fn entries_accounted(r: Seq<ProfileRecord>, records: Seq<ProfileRecord>) -> bool {
    forall|i: int| 0 <= i < r.len() ==> exists|q: int| #[trigger] is_first_valid(records, q)
        && records[q]@.id == (#[trigger] r[i])@.id && records[q]@.bytes == r[i]@.bytes
}

/// Every accounted record of `records` has an entry in `r`.
#[verifier::opaque]
pub open spec fn all_accounted(r: Seq<ProfileRecord>, records: Seq<ProfileRecord>) -> bool {
    forall|q: int| #[trigger] is_first_valid(records, q) ==> exists|i: int| 0 <= i < r.len()
        && (#[trigger] r[i])@.id == records[q]@.id
}

/// An inventory handed back loses nothing: every entry of an inventory has a
/// library identity of its own and is accounted again.
pub proof fn lemma_inventory_accounts_every_entry(r: Seq<ProfileRecord>, records: Seq<ProfileRecord>)
    requires
        is_inventory_of(r, records),
    ensures
        forall|i: int| 0 <= i < r.len() ==> #[trigger] is_first_valid(r, i),
{
    reveal(entries_accounted);
    assert forall|i: int| 0 <= i < r.len() implies #[trigger] is_first_valid(r, i) by {
        let q = choose|q: int| #[trigger] is_first_valid(records, q)
            && records[q]@.id == r[i]@.id && records[q]@.bytes == r[i]@.bytes;
        assert forall|k: int| 0 <= k < i implies (#[trigger] r[k]@.id) != r[i]@.id by {
            assert(text_less(r[k]@.id, r[i]@.id));
            lemma_text_less_asymmetric(r[k]@.id, r[i]@.id);
        }
    }
}

/// The library's accounting of the host's records: the records with a
/// library identity, one per identity (the first listed), ordered by
/// identity, each with the issue that the quota or the read limit gives it.
/// Records beyond the quota stay listed so that they can be removed.
pub fn profile_inventory(records: Vec<ProfileRecord>) -> (r: Vec<ProfileRecord>)
    ensures
        is_inventory_of(r@, records@),
{
    let (kept, Ghost(src), Ghost(slot)) = first_valid_records(&records);
    let (sorted, Ghost(perm), Ghost(inv)) = sort_by_id(&kept);
    let mut out: Vec<ProfileRecord> = Vec::new();
    let mut total: u64 = 0;
    let mut i: usize = 0;
    while i < sorted.len()
        invariant
            i <= sorted@.len(),
            out@.len() == i,
            forall|a: int| 0 <= a < i ==> (#[trigger] out@[a])@.id == sorted@[a]@.id && out@[a]@.bytes == sorted@[a]@.bytes,
            forall|a: int| 0 <= a < i ==> (#[trigger] out@[a])@.issue == issue_for(a, prefix_bytes(sorted@, a + 1), sorted@[a]@.bytes),
            total == (if prefix_bytes(sorted@, i as int) > u64::MAX { u64::MAX as int } else { prefix_bytes(sorted@, i as int) }),
        decreases sorted@.len() - i,
    {
        let bytes = sorted[i].bytes;
        total = total.saturating_add(bytes);
        let issue = if i >= PROFILE_LIBRARY_ENTRIES || total > PROFILE_LIBRARY_BYTES {
            Some("The profile library limit is 128 profiles and 64 MiB; remove unused profiles".to_owned())
        } else if bytes > PROFILE_READ_LIMIT as u64 {
            Some("ICC profile exceeds 16 MiB".to_owned())
        } else {
            None
        };
        out.push(ProfileRecord { id: sorted[i].id.clone(), bytes, issue });
        i = i + 1;
    }
    proof {
        reveal(entries_accounted);
        reveal(all_accounted);
        let n = out@.len() as int;
        assert forall|a: int| 0 <= a < n implies (#[trigger] out@[a])@.issue == issue_for(a, prefix_bytes(out@, a + 1), out@[a]@.bytes) by {
            lemma_prefix_bytes_agree(out@, sorted@, a + 1);
        }
        assert forall|a: int| 0 <= a < n implies exists|q: int| #[trigger] is_first_valid(records@, q)
            && records@[q]@.id == (#[trigger] out@[a])@.id && records@[q]@.bytes == out@[a]@.bytes by {
            let q = src[perm[a]];
            assert(is_first_valid(records@, q));
        }
        assert forall|q: int| #[trigger] is_first_valid(records@, q) implies exists|i: int| 0 <= i < n
            && (#[trigger] out@[i])@.id == records@[q]@.id by {
            let c = slot[q];
            assert(out@[inv[c]]@.id == records@[q]@.id);
        }
        assert forall|x: int, y: int| 0 <= x < y < n implies text_less(#[trigger] out@[x]@.id, #[trigger] out@[y]@.id) by {
            assert(text_less(sorted@[x]@.id, sorted@[y]@.id));
        }
    }
    out
}

/// Whether record `q` is one the library accounts for.
fn accounted(records: &Vec<ProfileRecord>, q: usize) -> (r: bool)
    requires
        q < records@.len(),
    ensures
        r == is_first_valid(records@, q as int),
{
    if !valid_profile_id(records[q].id.as_str()) {
        return false;
    }
    let mut k: usize = 0;
    while k < q
        invariant
            q < records@.len(),
            k <= q,
            forall|m: int| 0 <= m < k ==> (#[trigger] records@[m]@.id) != records@[q as int]@.id,
        decreases q - k,
    {
        if records[k].id == records[q].id {
            assert(records@[k as int]@.id == records@[q as int]@.id);
            return false;
        }
        k = k + 1;
    }
    true
}

/// How many of the first `n` records are accounted for and carry another
/// identity than `id`.
pub open spec fn others_count(s: Seq<ProfileRecord>, n: int, id: Seq<char>) -> int
    decreases n,
{
    if n <= 0 || n > s.len() {
        0
    } else {
        others_count(s, n - 1, id) + if is_first_valid(s, n - 1) && s[n - 1]@.id != id { 1int } else { 0int }
    }
}

/// The bytes of those records.
pub open spec fn others_bytes(s: Seq<ProfileRecord>, n: int, id: Seq<char>) -> int
    decreases n,
{
    if n <= 0 || n > s.len() {
        0
    } else {
        others_bytes(s, n - 1, id) + if is_first_valid(s, n - 1) && s[n - 1]@.id != id { s[n - 1]@.bytes as int } else { 0int }
    }
}

/// Whether a profile of `byte_len` bytes with identity `id` fits the library
/// beside the accounted records of other identities (an entry with the same
/// identity is replaced, which is how a damaged entry is repaired).
pub fn import_quota(records: &Vec<ProfileRecord>, id: &str, byte_len: usize) -> (r: Result<(), ProfileError>)
    ensures
        r == (if others_count(records@, records@.len() as int, id@) >= PROFILE_LIBRARY_ENTRIES
            || byte_len + others_bytes(records@, records@.len() as int, id@) > PROFILE_LIBRARY_BYTES {
            Err(ProfileError::LibraryFull)
        } else {
            Ok(())
        }),
{
    let mut count: usize = 0;
    let mut total: u64 = byte_len as u64;
    let mut q: usize = 0;
    while q < records.len()
        invariant
            q <= records@.len(),
            count == others_count(records@, q as int, id@),
            count <= q,
            total == (if byte_len + others_bytes(records@, q as int, id@) > u64::MAX { u64::MAX as int }
                else { byte_len + others_bytes(records@, q as int, id@) }),
        decreases records@.len() - q,
    {
        if accounted(records, q) && !crate::text::same_text(records[q].id.as_str(), id) {
            count = count + 1;
            total = total.saturating_add(records[q].bytes);
        }
        q = q + 1;
    }
    if count >= PROFILE_LIBRARY_ENTRIES || total > PROFILE_LIBRARY_BYTES {
        Err(ProfileError::LibraryFull)
    } else {
        Ok(())
    }
}

/// The name shown for an entry that cannot be read: "Unavailable profile"
/// and the first twelve characters of its identity.
pub fn unavailable_name(id: &str) -> (r: String)
    ensures
        r@ == "Unavailable profile "@ + id@.subrange(0, if id@.len() < 12 { id@.len() as int } else { 12 }),
{
    let n = id.unicode_len();
    let take = if n < 12 { n } else { 12 };
    let mut chars: Vec<char> = Vec::new();
    let prefix = "Unavailable profile ";
    proof {
        reveal_strlit("Unavailable profile ");
    }
    let pn = prefix.unicode_len();
    let mut i: usize = 0;
    while i < pn
        invariant
            pn == prefix@.len(),
            i <= pn,
            chars@ == prefix@.subrange(0, i as int),
        decreases pn - i,
    {
        chars.push(prefix.get_char(i));
        i = i + 1;
    }
    let mut j: usize = 0;
    while j < take
        invariant
            take <= n,
            n == id@.len(),
            j <= take,
            chars@ == prefix@ + id@.subrange(0, j as int),
        decreases take - j,
    {
        chars.push(id.get_char(j));
        j = j + 1;
    }
    string_from_chars(&chars)
}

/// A request from a host's storage worker.
#[derive(Debug)]
pub enum ProfileLibraryAction {
    /// The read limit.
    Limits,
    /// The accounting of the listed records.
    Inventory { entries: Vec<ProfileRecord> },
    /// Admission of the given bytes beside the listed records.
    Import { entries: Vec<ProfileRecord> },
    /// The stored profile `id`.
    Get { id: String },
    /// What can be shown for a listed record whose bytes may be unreadable.
    Inspect { entry: ProfileRecord, error: Option<String> },
    /// Removal of the stored profile `id`.
    Remove { id: String },
}

/// A removal may only name a library object.
pub fn removal_target(id: &str) -> (r: Result<(), ProfileError>)
    ensures
        r == (if spec_valid_profile_id(id@) { Ok(()) } else { Err(ProfileError::NotImported) }),
{
    if valid_profile_id(id) {
        Ok(())
    } else {
        Err(ProfileError::NotImported)
    }
}

/// Two id-sorted listings whose identities correspond both ways (`f` maps a
/// position of `t` to one of `s` with the same identity, `g` the other way)
/// agree position by position below `k`.
proof fn lemma_same_sorted_ids(s: Seq<ProfileRecord>, t: Seq<ProfileRecord>, f: spec_fn(int) -> int, g: spec_fn(int) -> int, k: int)
    requires
        sorted_by_id(s),
        sorted_by_id(t),
        forall|j: int| #![trigger f(j)] 0 <= j < t.len() ==> 0 <= f(j) < s.len() && s[f(j)]@.id == t[j]@.id,
        forall|i: int| #![trigger g(i)] 0 <= i < s.len() ==> 0 <= g(i) < t.len() && t[g(i)]@.id == s[i]@.id,
        0 <= k,
    ensures
        forall|m: int| #![trigger s[m]] 0 <= m < k && m < s.len() ==> m < t.len() && t[m]@.id == s[m]@.id,
        s.len() <= k ==> s.len() <= t.len(),
        t.len() <= k ==> t.len() <= s.len(),
    decreases k,
{
    if k > 0 {
        lemma_same_sorted_ids(s, t, f, g, k - 1);
        let m = k - 1;
        if m < s.len() {
            let j = g(m);
            if j < m {
                assert(t[j]@.id == s[j]@.id);
                assert(text_less(s[j]@.id, s[m]@.id));
                lemma_text_less_asymmetric(s[j]@.id, s[m]@.id);
            }
            assert(m < t.len());
            let i = f(m);
            if i < m {
                assert(t[i]@.id == s[i]@.id);
                assert(text_less(t[i]@.id, t[m]@.id));
                lemma_text_less_asymmetric(t[i]@.id, t[m]@.id);
            }
            if i > m {
                assert(text_less(s[m]@.id, s[i]@.id));
                if j > m {
                    assert(text_less(t[m]@.id, t[j]@.id));
                    lemma_text_less_transitive(s[m]@.id, t[m]@.id, t[j]@.id);
                    lemma_text_less_asymmetric(s[m]@.id, s[m]@.id);
                }
            }
        }
        if m < t.len() {
            let i = f(m);
            if i < m {
                assert(t[i]@.id == s[i]@.id);
                assert(text_less(t[i]@.id, t[m]@.id));
                lemma_text_less_asymmetric(t[i]@.id, t[m]@.id);
            }
            assert(m < s.len());
        }
    }
}

/// Position maps between an inventory `r` and the inventory `r2` of it.
proof fn inventory_maps(r: Seq<ProfileRecord>, records: Seq<ProfileRecord>, r2: Seq<ProfileRecord>) -> (maps: (spec_fn(int) -> int, spec_fn(int) -> int))
    requires
        is_inventory_of(r, records),
        is_inventory_of(r2, r),
    ensures
        forall|j: int| #![trigger maps.0(j)] 0 <= j < r2.len() ==> 0 <= maps.0(j) < r.len()
            && r[maps.0(j)]@.id == r2[j]@.id && r[maps.0(j)]@.bytes == r2[j]@.bytes,
        forall|i: int| #![trigger maps.1(i)] 0 <= i < r.len() ==> 0 <= maps.1(i) < r2.len() && r2[maps.1(i)]@.id == r[i]@.id,
{
    lemma_inventory_accounts_every_entry(r, records);
    let f = |j: int| choose|q: int| is_first_valid(r, q) && r[q]@.id == r2[j]@.id && r[q]@.bytes == r2[j]@.bytes;
    let g = |i: int| choose|j: int| 0 <= j < r2.len() && r2[j]@.id == r[i]@.id;
    assert forall|j: int| #![trigger f(j)] 0 <= j < r2.len() implies 0 <= f(j) < r.len()
        && r[f(j)]@.id == r2[j]@.id && r[f(j)]@.bytes == r2[j]@.bytes by {
        reveal(entries_accounted);
        assert(exists|q: int| #[trigger] is_first_valid(r, q) && r[q]@.id == (#[trigger] r2[j])@.id && r[q]@.bytes == r2[j]@.bytes);
    }
    assert forall|i: int| #![trigger g(i)] 0 <= i < r.len() implies 0 <= g(i) < r2.len() && r2[g(i)]@.id == r[i]@.id by {
        reveal(all_accounted);
        assert(is_first_valid(r, i));
    }
    (f, g)
}

/// Accounting is idempotent: the inventory of an inventory is that
/// inventory, entry by entry (identity, size and issue).
pub proof fn lemma_inventory_idempotent(r: Seq<ProfileRecord>, records: Seq<ProfileRecord>, r2: Seq<ProfileRecord>)
    requires
        is_inventory_of(r, records),
        is_inventory_of(r2, r),
    ensures
        r2.len() == r.len(),
        forall|i: int| 0 <= i < r.len() ==> (#[trigger] r2[i])@ == r[i]@,
{
    let (f, g) = inventory_maps(r, records, r2);
    let n = if r.len() > r2.len() { r.len() as int } else { r2.len() as int };
    lemma_same_sorted_ids(r, r2, f, g, n + 1);
    assert(r2.len() == r.len());
    assert forall|i: int| 0 <= i < r.len() implies (#[trigger] r2[i])@.bytes == r[i]@.bytes by {
        assert(r2[i]@.id == r[i]@.id);
        let q = f(i);
        if q != i {
            if q < i {
                assert(text_less(r[q]@.id, r[i]@.id));
            } else {
                assert(text_less(r[i]@.id, r[q]@.id));
            }
            lemma_text_less_asymmetric(r[q]@.id, r[i]@.id);
        }
    }
    assert forall|i: int| 0 <= i < r.len() implies (#[trigger] r2[i])@ == r[i]@ by {
        lemma_prefix_bytes_agree(r2, r, i + 1);
    }
}
} // verus!
