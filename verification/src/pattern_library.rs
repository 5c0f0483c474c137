//! User pattern library: display names, name validation, new library ids,
//! and the listing order (newest first, then by name).
//!
//! Scanning the `patterns` directory, reading pattern manifests and writing
//! the name index are done by the caller.
use vstd::prelude::*;
use vstd::string::*;
use vstd::utf8::encode_utf8;

use crate::text::{concat_str, str_eq, trim_end_ws, trim_start_ws, trim_ws, utf8_len};

verus! {

broadcast use vstd::seq_lib::group_to_multiset_ensures;

/// One pattern file of the library.
#[derive(Debug, Clone)]
pub struct PatternLibraryEntry {
    /// Stable library id (= file name stem).
    pub id: String,
    pub name: String,
    pub created_at: String,
    pub path: String,
}

/// Mathematical value of a [`PatternLibraryEntry`].
pub struct EntryView {
    pub id: Seq<char>,
    pub name: Seq<char>,
    pub created_at: Seq<char>,
    pub path: Seq<char>,
}

impl View for PatternLibraryEntry {
    type V = EntryView;

    open spec fn view(&self) -> EntryView {
        EntryView { id: self.id@, name: self.name@, created_at: self.created_at@, path: self.path@ }
    }
}

/// The views of a sequence of entries.
pub open spec fn entries_view(v: Seq<PatternLibraryEntry>) -> Seq<EntryView> {
    v.map_values(|e: PatternLibraryEntry| e@)
}

// ---------------------------------------------------------------------------
// Names and ids
// ---------------------------------------------------------------------------

/// Display name of a library entry: a non-empty name from the library
/// index, else the manifest's name when it is not empty, else the id.
pub open spec fn display_name(index_name: Option<Seq<char>>, manifest_name: Seq<char>, id: Seq<char>) -> Seq<char> {
    match index_name {
        Some(n) if n.len() > 0 => n,
        _ => if manifest_name.len() > 0 {
            manifest_name
        } else {
            id
        },
    }
}

/// The view of an optional string.
pub open spec fn opt_seq(o: Option<String>) -> Option<Seq<char>> {
    match o {
        Some(s) => Some(s@),
        None => None,
    }
}

/// Display name of a library entry (see [`display_name`]).
pub fn entry_display_name(index_name: Option<String>, manifest_name: String, id: &str) -> (r: String)
    ensures
        r@ == display_name(opt_seq(index_name), manifest_name@, id@),
{
    if let Some(n) = index_name {
        if n.as_str().unicode_len() > 0 {
            return n;
        }
    }
    if manifest_name.as_str().unicode_len() > 0 {
        manifest_name
    } else {
        String::from_str(id)
    }
}

/// Verdict on a new display name: trimmed, it must be 1 to 255 bytes long.
pub open spec fn renamed_outcome(new_name: Seq<char>) -> Result<Seq<char>, Seq<char>> {
    let t = trim_end_ws(trim_start_ws(new_name));
    if t.len() == 0 || encode_utf8(t).len() > 255 {
        Err("Name must be 1–255 characters"@)
    } else {
        Ok(t)
    }
}

/// The views of a string result.
pub open spec fn str_result_view(r: Result<String, String>) -> Result<Seq<char>, Seq<char>> {
    match r {
        Ok(s) => Ok(s@),
        Err(e) => Err(e@),
    }
}

/// Check a new display name for a library entry (see [`renamed_outcome`]).
pub fn validated_pattern_name(new_name: &str) -> (r: Result<String, String>)
    ensures
        str_result_view(r) == renamed_outcome(new_name@),
{
    let trimmed = trim_ws(new_name);
    if trimmed.unicode_len() == 0 || utf8_len(trimmed) > 255 {
        return Err(String::from_str("Name must be 1–255 characters"));
    }
    Ok(String::from_str(trimmed))
}

/// Base of a new library id: the sanitized preferred name, or `pattern` when
/// that is empty or `_`.
pub open spec fn id_base(sanitized: Seq<char>) -> Seq<char> {
    if sanitized.len() == 0 || sanitized == "_"@ {
        "pattern"@
    } else {
        sanitized
    }
}

/// A new library id: the base (see [`id_base`]), `_`, and a short random tag.
pub fn library_id(sanitized: &str, tag: &str) -> (r: String)
    ensures
        r@ == id_base(sanitized@) + "_"@ + tag@,
{
    let base = if sanitized.unicode_len() == 0 || str_eq(sanitized, "_") {
        "pattern"
    } else {
        sanitized
    };
    let mut id = concat_str(base, "_");
    id.append(tag);
    id
}

/// A lower-case hexadecimal digit.
pub open spec fn is_lower_hex(c: char) -> bool {
    ||| '0' <= c <= '9'
    ||| 'a' <= c <= 'f'
}

/// Calls `uuid::Uuid::new_v4` and renders it with `to_string`, the
/// hyphenated lower-case form. Claimed of every outcome: 36 characters, the
/// first 8 lower-case hexadecimal digits. Which digits is left open (random).
#[verifier::external_body]
fn uuid_v4_string() -> (r: String)
    ensures
        r@.len() == 36,
        forall|i: int| 0 <= i < 8 ==> is_lower_hex(#[trigger] r@[i]),
{
    uuid::Uuid::new_v4().to_string()
}

/// A fresh library id: the base (see [`id_base`]), `_`, and the first 8
/// hexadecimal digits of a random version-4 UUID.
pub fn new_library_id(sanitized: &str) -> (r: String)
    ensures
        exists|tag: Seq<char>|
            tag.len() == 8 && (forall|i: int| 0 <= i < 8 ==> is_lower_hex(#[trigger] tag[i]))
                && r@ == id_base(sanitized@) + "_"@ + tag,
{
    let uuid = uuid_v4_string();
    let tag = uuid.as_str().substring_char(0, 8);
    let r = library_id(sanitized, tag);
    assert(forall|i: int| 0 <= i < 8 ==> is_lower_hex(#[trigger] tag@[i])) by {
        assert forall|i: int| 0 <= i < 8 implies is_lower_hex(#[trigger] tag@[i]) by {
            assert(tag@[i] == uuid@[i]);
        }
    }
    r
}

// ---------------------------------------------------------------------------
// Listing order
// ---------------------------------------------------------------------------

/// Byte-wise lexicographic order, as `String`'s `Ord` compares.
pub open spec fn bytes_lt(a: Seq<u8>, b: Seq<u8>) -> bool
    decreases a.len(),
{
    if a.len() == 0 {
        b.len() > 0
    } else if b.len() == 0 {
        false
    } else if a[0] != b[0] {
        a[0] < b[0]
    } else {
        bytes_lt(a.drop_first(), b.drop_first())
    }
}

/// `x` is listed strictly before `y`: it was created later, or at the same
/// time with a smaller name.
pub open spec fn listed_before(x: EntryView, y: EntryView) -> bool {
    let (cx, cy) = (encode_utf8(x.created_at), encode_utf8(y.created_at));
    ||| bytes_lt(cy, cx)
    ||| cx == cy && bytes_lt(encode_utf8(x.name), encode_utf8(y.name))
}

/// Where `e` joins the listed sequence `s`: before the first entry it is
/// listed before, so that entries of equal rank keep their order.
pub open spec fn listed_pos(s: Seq<EntryView>, e: EntryView) -> int
    decreases s.len(),
{
    if s.len() == 0 {
        0
    } else if listed_before(e, s[0]) {
        0
    } else {
        1 + listed_pos(s.drop_first(), e)
    }
}

/// The listing of `s`: its entries in listing order, entries of equal rank
/// in their input order (a stable sort).
pub open spec fn listing(s: Seq<EntryView>) -> Seq<EntryView>
    decreases s.len(),
{
    if s.len() == 0 {
        s
    } else {
        let l = listing(s.drop_last());
        l.insert(listed_pos(l, s.last()), s.last())
    }
}

/// No entry of `s` is listed before an entry that precedes it.
pub open spec fn in_listing_order(s: Seq<EntryView>) -> bool {
    forall|i: int, j: int| 0 <= i < j < s.len() ==> !listed_before(#[trigger] s[j], #[trigger] s[i])
}

proof fn lemma_listed_pos(s: Seq<EntryView>, e: EntryView)
    ensures
        0 <= listed_pos(s, e) <= s.len(),
        forall|q: int| 0 <= q < listed_pos(s, e) ==> !listed_before(e, #[trigger] s[q]),
        listed_pos(s, e) < s.len() ==> listed_before(e, s[listed_pos(s, e)]),
    decreases s.len(),
{
    if s.len() > 0 && !listed_before(e, s[0]) {
        lemma_listed_pos(s.drop_first(), e);
        assert forall|q: int| 0 <= q < listed_pos(s, e) implies !listed_before(e, #[trigger] s[q]) by {
            if q > 0 {
                assert(s[q] == s.drop_first()[q - 1]);
            }
        }
    }
}

/// Compare two byte strings as `bytes_lt` does.
fn bytes_less(a: &[u8], b: &[u8]) -> (r: bool)
    ensures
        r == bytes_lt(a@, b@),
{
    let mut i: usize = 0;
    assert(a@.skip(0) =~= a@);
    assert(b@.skip(0) =~= b@);
    while i < a.len() && i < b.len()
        invariant
            i <= a.len(),
            i <= b.len(),
            bytes_lt(a@, b@) == bytes_lt(a@.skip(i as int), b@.skip(i as int)),
        decreases a.len() - i,
    {
        if a[i] != b[i] {
            return a[i] < b[i];
        }
        assert(a@.skip(i as int).drop_first() =~= a@.skip(i + 1));
        assert(b@.skip(i as int).drop_first() =~= b@.skip(i + 1));
        i = i + 1;
    }
    i == a.len() && i < b.len()
}

/// Whether `x` is listed strictly before `y`.
fn listed_before_exec(x: &PatternLibraryEntry, y: &PatternLibraryEntry) -> (r: bool)
    ensures
        r == listed_before(x@, y@),
{
    let cx = x.created_at.as_str().as_bytes();
    let cy = y.created_at.as_str().as_bytes();
    if bytes_less(cy, cx) {
        return true;
    }
    if bytes_less(cx, cy) {
        proof {
            lemma_bytes_lt_asym(cx@, cy@);
        }
        return false;
    }
    proof {
        lemma_bytes_lt_total(cx@, cy@);
    }
    bytes_less(x.name.as_str().as_bytes(), y.name.as_str().as_bytes())
}

/// Sort entries for listing: newest `created_at` first, then by name; entries
/// of equal rank keep their order.
pub fn sort_library_entries(entries: Vec<PatternLibraryEntry>) -> (r: Vec<PatternLibraryEntry>)
    ensures
        entries_view(r@) == listing(entries_view(entries@)),
{
    let ghost input = entries_view(entries@);
    let mut out: Vec<PatternLibraryEntry> = Vec::new();
    let mut rest = entries;
    let n = rest.len();
    proof {
        assert(entries_view(rest@) =~= input.skip(0));
    }
    let mut k: usize = 0;
    while k < n
        invariant
            k <= n,
            n == input.len(),
            rest.len() == n - k,
            entries_view(rest@) =~= input.skip(k as int),
            entries_view(out@) == listing(input.take(k as int)),
        decreases n - k,
    {
        let ghost before = rest@;
        let e = rest.remove(0);
        proof {
            assert(entries_view(before)[0] == before[0]@);
            assert(input.skip(k as int)[0] == input[k as int]);
            assert(e@ == input[k as int]);
            assert forall|j: int| 0 <= j < rest.len() implies entries_view(rest@)[j] == input.skip(
                k + 1,
            )[j] by {
                assert(entries_view(rest@)[j] == rest@[j]@);
                assert(rest@[j] == before[j + 1]);
                assert(entries_view(before)[j + 1] == before[j + 1]@);
                assert(input.skip(k as int)[j + 1] == input.skip(k + 1)[j]);
            }
            assert(entries_view(rest@) =~= input.skip(k + 1));
        }
        let ghost l = entries_view(out@);
        let mut p: usize = 0;
        while p < out.len() && !listed_before_exec(&e, &out[p])
            invariant
                p <= out.len(),
                l == entries_view(out@),
                forall|q: int| 0 <= q < p ==> !listed_before(e@, #[trigger] l[q]),
            decreases out.len() - p,
        {
            p = p + 1;
        }
        proof {
            lemma_listed_pos(l, e@);
            let lp = listed_pos(l, e@);
            if (p as int) < lp {
                assert(listed_before(e@, l[p as int]));
            } else if lp < (p as int) {
                assert(!listed_before(e@, l[lp]));
            }
            assert(input.take(k + 1).drop_last() =~= input.take(k as int));
            assert(input.take(k + 1).last() == e@);
        }
        out.insert(p, e);
        proof {
            assert(entries_view(out@) =~= l.insert(p as int, e@));
        }
        k = k + 1;
    }
    proof {
        assert(input.take(n as int) =~= input);
    }
    out
}

// ---------------------------------------------------------------------------
// Laws of the listing order
// ---------------------------------------------------------------------------

proof fn lemma_bytes_lt_irrefl(a: Seq<u8>)
    ensures
        !bytes_lt(a, a),
    decreases a.len(),
{
    if a.len() > 0 {
        lemma_bytes_lt_irrefl(a.drop_first());
    }
}

proof fn lemma_bytes_lt_trans(a: Seq<u8>, b: Seq<u8>, c: Seq<u8>)
    requires
        bytes_lt(a, b),
        bytes_lt(b, c),
    ensures
        bytes_lt(a, c),
    decreases a.len(),
{
    if a.len() > 0 && b.len() > 0 && c.len() > 0 && a[0] == b[0] && b[0] == c[0] {
        lemma_bytes_lt_trans(a.drop_first(), b.drop_first(), c.drop_first());
    }
}

proof fn lemma_bytes_lt_asym(a: Seq<u8>, b: Seq<u8>)
    requires
        bytes_lt(a, b),
    ensures
        !bytes_lt(b, a),
{
    if bytes_lt(b, a) {
        lemma_bytes_lt_trans(a, b, a);
        lemma_bytes_lt_irrefl(a);
    }
}

proof fn lemma_bytes_lt_total(a: Seq<u8>, b: Seq<u8>)
    ensures
        a == b || bytes_lt(a, b) || bytes_lt(b, a),
    decreases a.len(),
{
    if a.len() > 0 && b.len() > 0 && a[0] == b[0] {
        lemma_bytes_lt_total(a.drop_first(), b.drop_first());
        if a.drop_first() == b.drop_first() {
            assert forall|i: int| 0 <= i < a.len() implies a[i] == b[i] by {
                if i > 0 {
                    assert(a[i] == a.drop_first()[i - 1]);
                    assert(b[i] == b.drop_first()[i - 1]);
                }
            }
            assert(a =~= b);
        }
    } else if a.len() == 0 && b.len() == 0 {
        assert(a =~= b);
    }
}

proof fn lemma_listed_before_irrefl(x: EntryView)
    ensures
        !listed_before(x, x),
{
    lemma_bytes_lt_irrefl(encode_utf8(x.created_at));
    lemma_bytes_lt_irrefl(encode_utf8(x.name));
}

proof fn lemma_listed_before_trans(x: EntryView, y: EntryView, z: EntryView)
    requires
        listed_before(x, y),
        listed_before(y, z),
    ensures
        listed_before(x, z),
{
    let (cx, cy, cz) = (encode_utf8(x.created_at), encode_utf8(y.created_at), encode_utf8(z.created_at));
    if bytes_lt(cy, cx) && bytes_lt(cz, cy) {
        lemma_bytes_lt_trans(cz, cy, cx);
    } else if bytes_lt(cy, cx) {
        assert(cz == cy);
    } else if bytes_lt(cz, cy) {
        assert(cx == cy);
    } else {
        lemma_bytes_lt_trans(encode_utf8(x.name), encode_utf8(y.name), encode_utf8(z.name));
    }
}

proof fn lemma_insert_keeps_order(s: Seq<EntryView>, e: EntryView)
    requires
        in_listing_order(s),
    ensures
        in_listing_order(s.insert(listed_pos(s, e), e)),
{
    lemma_listed_pos(s, e);
    let p = listed_pos(s, e);
    let t = s.insert(p, e);
    assert forall|i: int, j: int| 0 <= i < j < t.len() implies !listed_before(
        #[trigger] t[j],
        #[trigger] t[i],
    ) by {
        if i < p && j == p {
            assert(t[i] == s[i]);
        } else if i == p {
            let q = j - 1;
            assert(t[j] == s[q]);
            if listed_before(s[q], e) {
                lemma_listed_before_trans(s[q], e, s[p]);
                if q == p {
                    lemma_listed_before_irrefl(s[p]);
                } else {
                    assert(!listed_before(s[q], s[p]));
                }
            }
        } else {
            let si = if i < p { i } else { i - 1 };
            let sj = if j < p { j } else { j - 1 };
            assert(t[i] == s[si]);
            assert(t[j] == s[sj]);
        }
    }
}

/// The listing is in listing order: no entry is listed before one that
/// precedes it.
pub proof fn law_listing_is_ordered(s: Seq<EntryView>)
    ensures
        in_listing_order(listing(s)),
    decreases s.len(),
{
    if s.len() > 0 {
        law_listing_is_ordered(s.drop_last());
        lemma_insert_keeps_order(listing(s.drop_last()), s.last());
    }
}

/// The listing holds exactly the entries it was given.
pub proof fn law_listing_is_permutation(s: Seq<EntryView>)
    ensures
        listing(s).to_multiset() =~= s.to_multiset(),
    decreases s.len(),
{
    if s.len() > 0 {
        law_listing_is_permutation(s.drop_last());
        let l = listing(s.drop_last());
        lemma_listed_pos(l, s.last());
        let p = listed_pos(l, s.last());
        let t = l.insert(p, s.last());
        assert(t.remove(p) =~= l);
        assert(t.to_multiset().remove(s.last()) =~= l.to_multiset());
        assert(s.drop_last().push(s.last()) =~= s);
        assert(t.to_multiset() =~= l.to_multiset().insert(s.last()));
    }
}

} // verus!
