//! Pattern matchers over a byte buffer and the highlight predicate.
//!
//! A matcher scans the whole buffer and reports every occurrence of its
//! pattern as a `HighlightIndex` (offset and length), in ascending offset
//! order, overlapping occurrences included.  The highlight predicate then
//! decides, per absolute byte index, whether the index falls inside any
//! reported range; containment is inclusive at both ends, a convention this
//! crate preserves deliberately.
use vstd::prelude::*;
use vstd::slice::slice_subrange;
use vstd::utf8::encode_utf8;

verus! {

/// One located occurrence of a search pattern: a byte offset into the buffer
/// and the length of the occurrence.
#[derive(Clone, Copy, PartialEq, Eq, Structural, Debug)]
pub struct HighlightIndex {
    pub offset: usize,
    pub length: usize,
}

/// Which of the two output columns a matcher's hits mark: the hexadecimal
/// byte cells, the decoded-text glyphs, or both.
#[derive(Clone, Copy, PartialEq, Eq, Structural, Debug)]
pub enum HighLightLocation {
    Data,
    Text,
    DataAndText,
}

/// `n` occurs in `h` at position `i`.
pub open spec fn is_match_at(h: Seq<u8>, n: Seq<u8>, i: int) -> bool {
    0 <= i && i + n.len() <= h.len() && h.subrange(i, i + n.len()) == n
}

/// Index `i` lies inside range `r`, bounds inclusive at both ends: the
/// highlighted span is one byte wider than the match itself.
pub open spec fn in_range(r: HighlightIndex, i: int) -> bool {
    r.offset <= i <= r.offset + r.length
}

/// Index `i` lies inside at least one of `ranges`.
pub open spec fn is_highlighted(i: int, ranges: Seq<HighlightIndex>) -> bool {
    exists|k: int| 0 <= k < ranges.len() && in_range(#[trigger] ranges[k], i)
}

/// Every range ends at or before `blen`.
pub open spec fn ranges_within(r: Seq<HighlightIndex>, blen: int) -> bool {
    forall|k: int| 0 <= k < r.len() ==> (#[trigger] r[k]).offset + r[k].length <= blen
}

/// Range offsets are strictly ascending.
pub open spec fn ranges_ascending(r: Seq<HighlightIndex>) -> bool {
    forall|k1: int, k2: int|
        0 <= k1 < k2 < r.len() ==> (#[trigger] r[k1]).offset < (#[trigger] r[k2]).offset
}

/// `r` reports exactly the occurrences of needle `n` in buffer `h`: each
/// reported range is an occurrence of length `n.len()`, offsets ascend, and
/// every occurrence is reported.
pub open spec fn match_ranges_ok(r: Seq<HighlightIndex>, h: Seq<u8>, n: Seq<u8>) -> bool {
    &&& forall|k: int|
        0 <= k < r.len() ==> (#[trigger] r[k]).length == n.len() && is_match_at(
            h,
            n,
            r[k].offset as int,
        )
    &&& ranges_ascending(r)
    &&& forall|j: int|
        #[trigger] is_match_at(h, n, j) ==> exists|k: int|
            0 <= k < r.len() && (#[trigger] r[k]).offset as int == j
}

/// Relies on bstr's `ByteSlice::find`: it returns the index of the first
/// occurrence of `needle` in `haystack`, or `None` when there is none.
#[verifier::external_body]
fn find_first(haystack: &[u8], needle: &[u8]) -> (r: Option<usize>)
    requires
        needle@.len() > 0,
    ensures
        match r {
            Some(i) => is_match_at(haystack@, needle@, i as int) && forall|j: int|
                0 <= j < i ==> !is_match_at(haystack@, needle@, j),
            None => forall|j: int| !is_match_at(haystack@, needle@, j),
        },
{
    bstr::ByteSlice::find(haystack, needle)
}

/// An occurrence in the suffix of `h` that starts at `pos` is an occurrence
/// in `h` shifted by `pos`.
proof fn lemma_match_in_suffix(h: Seq<u8>, n: Seq<u8>, pos: int, j: int)
    requires
        0 <= pos <= h.len(),
    ensures
        is_match_at(h.subrange(pos, h.len() as int), n, j) <==> (0 <= j && is_match_at(
            h,
            n,
            pos + j,
        )),
{
    let s = h.subrange(pos, h.len() as int);
    if 0 <= j && j + n.len() <= s.len() {
        assert(s.subrange(j, j + n.len() as int) =~= h.subrange(pos + j, pos + j + n.len() as int));
    }
}

/// Every position at which `needle` occurs in `haystack`, in ascending
/// order: a forward scan that advances one byte past each hit, so
/// overlapping occurrences are all reported.
pub fn find_all(haystack: &[u8], needle: &[u8]) -> (r: Vec<usize>)
    ensures
        forall|k: int| 0 <= k < r@.len() ==> is_match_at(haystack@, needle@, #[trigger] r@[k] as int),
        forall|k1: int, k2: int| 0 <= k1 < k2 < r@.len() ==> r@[k1] < r@[k2],
        forall|j: int|
            #[trigger] is_match_at(haystack@, needle@, j) ==> exists|k: int|
                0 <= k < r@.len() && #[trigger] r@[k] as int == j,
{
    let hlen = haystack.len();
    let mut r: Vec<usize> = Vec::new();
    if needle.len() == 0 {
        // The empty needle occurs at every position, the one past the end
        // included.
        let mut i: usize = 0;
        while i < hlen
            invariant
                i <= hlen,
                hlen == haystack@.len(),
                r@.len() == i as int,
                forall|k: int| 0 <= k < r@.len() ==> #[trigger] r@[k] as int == k,
            decreases hlen - i,
        {
            r.push(i);
            i += 1;
        }
        r.push(hlen);
        proof {
            assert forall|k: int| 0 <= k < r@.len() implies is_match_at(
                haystack@,
                needle@,
                #[trigger] r@[k] as int,
            ) by {
                assert(haystack@.subrange(r@[k] as int, r@[k] as int) =~= needle@);
            };
            assert forall|j: int| #[trigger] is_match_at(haystack@, needle@, j) implies exists|
                k: int,
            |
                0 <= j && 0 <= k < r@.len() && #[trigger] r@[k] as int == j by {
                assert(0 <= j <= hlen);
                assert(r@[j] as int == j);
            };
        }
        return r;
    }
    let mut pos: usize = 0;
    loop
        invariant
            hlen == haystack@.len(),
            needle@.len() > 0,
            pos <= hlen,
            forall|k: int|
                0 <= k < r@.len() ==> is_match_at(haystack@, needle@, #[trigger] r@[k] as int),
            forall|k: int| 0 <= k < r@.len() ==> #[trigger] r@[k] < pos,
            forall|k1: int, k2: int| 0 <= k1 < k2 < r@.len() ==> r@[k1] < r@[k2],
            forall|j: int|
                j < pos && #[trigger] is_match_at(haystack@, needle@, j) ==> exists|k: int|
                    0 <= k < r@.len() && #[trigger] r@[k] as int == j,
        ensures
            forall|k: int|
                0 <= k < r@.len() ==> is_match_at(haystack@, needle@, #[trigger] r@[k] as int),
            forall|k1: int, k2: int| 0 <= k1 < k2 < r@.len() ==> r@[k1] < r@[k2],
            forall|j: int|
                #[trigger] is_match_at(haystack@, needle@, j) ==> exists|k: int|
                    0 <= k < r@.len() && #[trigger] r@[k] as int == j,
        decreases hlen - pos,
    {
        let sub = slice_subrange(haystack, pos, hlen);
        match find_first(sub, needle) {
            Some(i) => {
                proof {
                    lemma_match_in_suffix(haystack@, needle@, pos as int, i as int);
                    assert forall|j: int| pos <= j < pos + i implies !is_match_at(
                        haystack@,
                        needle@,
                        j,
                    ) by {
                        lemma_match_in_suffix(haystack@, needle@, pos as int, j - pos);
                    };
                }
                let m = pos + i;
                let ghost r_old = r@;
                r.push(m);
                proof {
                    assert(r@[r@.len() - 1] == m);
                    assert forall|j: int|
                        j < m + 1 && #[trigger] is_match_at(haystack@, needle@, j) implies exists|
                        k: int,
                    | 0 <= k < r@.len() && #[trigger] r@[k] as int == j by {
                        if j < pos {
                            let k = choose|k: int|
                                0 <= k < r_old.len() && #[trigger] r_old[k] as int == j;
                            assert(r@[k] as int == j);
                        } else {
                            assert(j == m);
                            assert(r@[r@.len() - 1] as int == j);
                        }
                    };
                }
                pos = m + 1;
            },
            None => {
                proof {
                    assert forall|j: int| pos <= j implies !is_match_at(
                        haystack@,
                        needle@,
                        j,
                    ) by {
                        if 0 <= j && j + needle@.len() <= hlen {
                            lemma_match_in_suffix(haystack@, needle@, pos as int, j - pos);
                        }
                    };
                }
                break ;
            },
        }
    }
    r
}

/// The ranges that report `positions`, each of width `length`.
fn ranges_from_positions(positions: &Vec<usize>, length: usize) -> (r: Vec<HighlightIndex>)
    ensures
        r@.len() == positions@.len(),
        forall|k: int|
            0 <= k < r@.len() ==> (#[trigger] r@[k]).offset == positions@[k] && r@[k].length
                == length,
{
    let mut r: Vec<HighlightIndex> = Vec::new();
    let mut k: usize = 0;
    let n = positions.len();
    while k < n
        invariant
            k <= n,
            n == positions@.len(),
            r@.len() == k as int,
            forall|k2: int|
                0 <= k2 < r@.len() ==> (#[trigger] r@[k2]).offset == positions@[k2]
                    && r@[k2].length == length,
        decreases n - k,
    {
        r.push(HighlightIndex { offset: positions[k], length });
        k += 1;
    }
    r
}

/// All occurrences of `needle` in `buffer`, as highlight ranges.
pub fn search_ranges(buffer: &Vec<u8>, needle: &[u8]) -> (r: Vec<HighlightIndex>)
    ensures
        match_ranges_ok(r@, buffer@, needle@),
{
    let positions = find_all(buffer.as_slice(), needle);
    let r = ranges_from_positions(&positions, needle.len());
    proof {
        assert forall|k: int| 0 <= k < r@.len() implies (#[trigger] r@[k]).length == needle@.len()
            && is_match_at(buffer@, needle@, r@[k].offset as int) by {
            assert(r@[k].offset == positions@[k]);
            assert(is_match_at(buffer@, needle@, positions@[k] as int));
        };
        assert forall|j: int| #[trigger] is_match_at(buffer@, needle@, j) implies exists|k: int|
            0 <= k < r@.len() && #[trigger] r@[k].offset as int == j by {
            let k = choose|k: int| 0 <= k < positions@.len() && #[trigger] positions@[k] as int
                == j;
            assert(r@[k].offset as int == j);
        };
    }
    r
}

/// Every range of a `match_ranges_ok` result lies inside the buffer and the
/// offsets ascend.
pub proof fn lemma_match_ranges_within(r: Seq<HighlightIndex>, h: Seq<u8>, n: Seq<u8>)
    requires
        match_ranges_ok(r, h, n),
    ensures
        ranges_within(r, h.len() as int),
        ranges_ascending(r),
{
    assert forall|k: int| 0 <= k < r.len() implies (#[trigger] r[k]).offset + r[k].length
        <= h.len() by {
        assert(is_match_at(h, n, r[k].offset as int));
    };
}

/// Decides, per absolute byte index, whether the index falls inside any of
/// the given ranges; linear scan, first hit wins.
pub fn index_in_ranges(index: usize, ranges: &[HighlightIndex]) -> (r: bool)
    ensures
        r == is_highlighted(index as int, ranges@),
{
    let n = ranges.len();
    let mut k: usize = 0;
    while k < n
        invariant
            k <= n,
            n == ranges@.len(),
            forall|k2: int| 0 <= k2 < k ==> !in_range(#[trigger] ranges@[k2], index as int),
        decreases n - k,
    {
        let rg = *vstd::slice::slice_index_get(ranges, k);
        if index >= rg.offset && index - rg.offset <= rg.length {
            proof {
                assert(in_range(ranges@[k as int], index as int));
            }
            return true;
        }
        k += 1;
    }
    false
}

/// A matcher over a byte buffer.  `match_pattern` reports every occurrence
/// of the matcher's pattern; `get_highlight_location` names the output
/// column its hits mark; `index_matches_highlight_index` is the containment
/// test shared by all matchers.
pub trait TextHighligher {
    fn match_pattern(&self, buffer: &Vec<u8>) -> (r: Vec<HighlightIndex>)
        ensures
            ranges_within(r@, buffer@.len() as int),
            ranges_ascending(r@),
    ;

    fn get_highlight_location(&self) -> HighLightLocation;

    fn index_matches_highlight_index(
        &self,
        index: usize,
        highlight_indexes: &[HighlightIndex],
    ) -> (r: bool)
        ensures
            r == is_highlighted(index as int, highlight_indexes@),
    {
        index_in_ranges(index, highlight_indexes)
    }
}

/// Exact byte-for-byte substring search for the UTF-8 encoding of a search
/// string; hits mark the decoded-text column.
pub struct FindOnText {
    pub text_to_find: String,
}

impl FindOnText {
    /// Every occurrence of the UTF-8 bytes of `text_to_find` in `buffer`:
    /// no false positives, no false negatives, ascending offsets.
    pub fn find_matches(&self, buffer: &Vec<u8>) -> (r: Vec<HighlightIndex>)
        ensures
            match_ranges_ok(r@, buffer@, encode_utf8(self.text_to_find@)),
    {
        let needle: &[u8] = self.text_to_find.as_str().as_bytes();
        search_ranges(buffer, needle)
    }
}

impl TextHighligher for FindOnText {
    fn match_pattern(&self, buffer: &Vec<u8>) -> (r: Vec<HighlightIndex>)
        ensures
            match_ranges_ok(r@, buffer@, encode_utf8(self.text_to_find@)),
    {
        let r = self.find_matches(buffer);
        proof {
            lemma_match_ranges_within(r@, buffer@, encode_utf8(self.text_to_find@));
        }
        r
    }

    fn get_highlight_location(&self) -> (r: HighLightLocation)
        ensures
            r == HighLightLocation::Text,
    {
        HighLightLocation::Text
    }
}

/// `b` is an ASCII hexadecimal digit.
pub open spec fn is_hex_digit(b: u8) -> bool {
    (0x30 <= b <= 0x39) || (0x61 <= b <= 0x66) || (0x41 <= b <= 0x46)
}

/// The value of the ASCII hexadecimal digit `b`.
pub open spec fn hex_val(b: u8) -> int {
    if 0x30 <= b <= 0x39 {
        b - 0x30
    } else if 0x61 <= b <= 0x66 {
        b - 0x61 + 10
    } else {
        b - 0x41 + 10
    }
}

/// Both characters of the pair are hexadecimal digits.
pub open spec fn pair_valid(p: [u8; 2]) -> bool {
    is_hex_digit(p@[0]) && is_hex_digit(p@[1])
}

/// Every pair consists of hexadecimal digits.
pub open spec fn pairs_valid(ps: Seq<[u8; 2]>) -> bool {
    forall|k: int| 0 <= k < ps.len() ==> pair_valid(#[trigger] ps[k])
}

/// The byte values written by a sequence of two-digit hexadecimal pairs.
pub open spec fn hex_needle(ps: Seq<[u8; 2]>) -> Seq<u8> {
    Seq::new(ps.len(), |k: int| (hex_val(ps[k]@[0]) * 16 + hex_val(ps[k]@[1])) as u8)
}

/// The value of an ASCII hexadecimal digit, and whether it is one.
fn hex_digit_value(b: u8) -> (r: (bool, u8))
    ensures
        r.0 == is_hex_digit(b),
        r.0 ==> r.1 as int == hex_val(b),
{
    if 0x30 <= b && b <= 0x39 {
        (true, b - 0x30)
    } else if 0x61 <= b && b <= 0x66 {
        (true, b - 0x61 + 10)
    } else if 0x41 <= b && b <= 0x46 {
        (true, b - 0x41 + 10)
    } else {
        (false, 0)
    }
}

/// Search for a contiguous sequence of byte values written as two-digit
/// hexadecimal pairs; hits mark the hexadecimal byte column.
pub struct FindOnHexValues {
    pub hex_values: Vec<[u8; 2]>,
}

impl FindOnHexValues {
    /// The byte sequence the pairs denote, or `false` when some character is
    /// not a hexadecimal digit.
    fn parse_needle(&self) -> (r: (bool, Vec<u8>))
        ensures
            r.0 == pairs_valid(self.hex_values@),
            r.0 ==> r.1@ == hex_needle(self.hex_values@),
    {
        let mut needle: Vec<u8> = Vec::new();
        let n = self.hex_values.len();
        let mut k: usize = 0;
        while k < n
            invariant
                k <= n,
                n == self.hex_values@.len(),
                needle@.len() == k as int,
                forall|k2: int| 0 <= k2 < k ==> pair_valid(#[trigger] self.hex_values@[k2]),
                forall|k2: int|
                    0 <= k2 < k ==> #[trigger] needle@[k2] == hex_needle(self.hex_values@)[k2],
            decreases n - k,
        {
            let p = self.hex_values[k];
            let (ok_hi, hi) = hex_digit_value(p[0]);
            let (ok_lo, lo) = hex_digit_value(p[1]);
            if !ok_hi || !ok_lo {
                return (false, needle);
            }
            needle.push(hi * 16 + lo);
            k += 1;
        }
        proof {
            assert(needle@ =~= hex_needle(self.hex_values@));
        }
        (true, needle)
    }

    /// Every occurrence of the denoted byte sequence in `buffer` when the
    /// pairs are hexadecimal digits and there is at least one; no ranges
    /// otherwise (an empty or malformed pattern matches nothing).
    pub fn find_matches(&self, buffer: &Vec<u8>) -> (r: Vec<HighlightIndex>)
        ensures
            pairs_valid(self.hex_values@) && self.hex_values@.len() > 0 ==> match_ranges_ok(
                r@,
                buffer@,
                hex_needle(self.hex_values@),
            ),
            !(pairs_valid(self.hex_values@) && self.hex_values@.len() > 0) ==> r@.len() == 0,
    {
        if self.hex_values.len() == 0 {
            return Vec::new();
        }
        let (ok, needle) = self.parse_needle();
        if ok {
            search_ranges(buffer, needle.as_slice())
        } else {
            Vec::new()
        }
    }
}

impl TextHighligher for FindOnHexValues {
    fn match_pattern(&self, buffer: &Vec<u8>) -> (r: Vec<HighlightIndex>)
        ensures
            pairs_valid(self.hex_values@) && self.hex_values@.len() > 0 ==> match_ranges_ok(
                r@,
                buffer@,
                hex_needle(self.hex_values@),
            ),
            !(pairs_valid(self.hex_values@) && self.hex_values@.len() > 0) ==> r@.len() == 0,
    {
        let r = self.find_matches(buffer);
        proof {
            if pairs_valid(self.hex_values@) && self.hex_values@.len() > 0 {
                lemma_match_ranges_within(r@, buffer@, hex_needle(self.hex_values@));
            }
        }
        r
    }

    fn get_highlight_location(&self) -> (r: HighLightLocation)
        ensures
            r == HighLightLocation::Data,
    {
        HighLightLocation::Data
    }
}

/// The closed set of matchers the command surface offers.
pub enum Highlighter {
    Text(FindOnText),
    HexValues(FindOnHexValues),
}

/// The column a matcher's hits mark: text search marks the decoded-text
/// column, hex search marks the hexadecimal byte column.
pub open spec fn matcher_location(h: Highlighter) -> HighLightLocation {
    match h {
        Highlighter::Text(_) => HighLightLocation::Text,
        Highlighter::HexValues(_) => HighLightLocation::Data,
    }
}

/// The exact matcher contract of `h` on buffer `b` with result `r`.
pub open spec fn matcher_ranges_ok(h: Highlighter, b: Seq<u8>, r: Seq<HighlightIndex>) -> bool {
    match h {
        Highlighter::Text(f) => match_ranges_ok(r, b, encode_utf8(f.text_to_find@)),
        Highlighter::HexValues(f) => if pairs_valid(f.hex_values@) && f.hex_values@.len() > 0 {
            match_ranges_ok(r, b, hex_needle(f.hex_values@))
        } else {
            r.len() == 0
        },
    }
}

impl Highlighter {
    /// Every occurrence of the pattern in `buffer`, in ascending offset
    /// order, each range inside the buffer.
    pub fn match_pattern(&self, buffer: &Vec<u8>) -> (r: Vec<HighlightIndex>)
        ensures
            matcher_ranges_ok(*self, buffer@, r@),
            ranges_within(r@, buffer@.len() as int),
            ranges_ascending(r@),
    {
        let r = match self {
            Highlighter::Text(f) => f.find_matches(buffer),
            Highlighter::HexValues(f) => f.find_matches(buffer),
        };
        proof {
            match self {
                Highlighter::Text(f) => lemma_match_ranges_within(
                    r@,
                    buffer@,
                    encode_utf8(f.text_to_find@),
                ),
                Highlighter::HexValues(f) => {
                    if pairs_valid(f.hex_values@) && f.hex_values@.len() > 0 {
                        lemma_match_ranges_within(r@, buffer@, hex_needle(f.hex_values@));
                    }
                },
            }
        }
        r
    }

    /// The column this matcher's hits mark.
    pub fn get_highlight_location(&self) -> (r: HighLightLocation)
        ensures
            r == matcher_location(*self),
    {
        match self {
            Highlighter::Text(f) => HighLightLocation::Text,
            Highlighter::HexValues(f) => HighLightLocation::Data,
        }
    }
}

} // verus!

verus! {

/// Highlight containment is inclusive at both ends: a range flags exactly
/// the indices from its offset through its offset plus its length.
pub proof fn lemma_containment_inclusive(r: HighlightIndex, i: int)
    ensures
        in_range(r, i) <==> (r.offset <= i && i <= r.offset + r.length),
{
}

/// Two ascending, sound and complete match reports agree at every index up
/// to `k`.
proof fn lemma_match_offsets_agree(
    h: Seq<u8>,
    n: Seq<u8>,
    r1: Seq<HighlightIndex>,
    r2: Seq<HighlightIndex>,
    k: int,
)
    requires
        match_ranges_ok(r1, h, n),
        match_ranges_ok(r2, h, n),
        0 <= k < r1.len(),
        k < r2.len(),
    ensures
        forall|j: int| 0 <= j <= k ==> r1[j].offset == r2[j].offset,
    decreases k,
{
    if k > 0 {
        lemma_match_offsets_agree(h, n, r1, r2, k - 1);
    }
    assert(is_match_at(h, n, r1[k].offset as int));
    let k2 = choose|k2: int| 0 <= k2 < r2.len() && #[trigger] r2[k2].offset as int == r1[k].offset as int;
    if k2 < k {
        assert(r1[k2].offset == r2[k2].offset);
        assert(r1[k2].offset < r1[k].offset);
        assert(false);
    }
    if k2 > k {
        assert(r2[k].offset < r2[k2].offset);
    }
    assert(r2[k].offset <= r1[k].offset);
    assert(is_match_at(h, n, r2[k].offset as int));
    let k1 = choose|k1: int| 0 <= k1 < r1.len() && #[trigger] r1[k1].offset as int == r2[k].offset as int;
    if k1 < k {
        assert(r1[k1].offset == r2[k1].offset);
        assert(r2[k1].offset < r2[k].offset);
        assert(false);
    }
    if k1 > k {
        assert(r1[k].offset < r1[k1].offset);
    }
    assert(r1[k].offset <= r2[k].offset);
}

/// The matcher's contract pins its result down: two reports of the same
/// needle over the same buffer are equal, so matching is a function of its
/// inputs.
pub proof fn lemma_match_ranges_unique(
    h: Seq<u8>,
    n: Seq<u8>,
    r1: Seq<HighlightIndex>,
    r2: Seq<HighlightIndex>,
)
    requires
        match_ranges_ok(r1, h, n),
        match_ranges_ok(r2, h, n),
    ensures
        r1 == r2,
{
    if r1.len() < r2.len() {
        let j = r2[r1.len() as int].offset as int;
        assert(is_match_at(h, n, j));
        let k1 = choose|k1: int| 0 <= k1 < r1.len() && #[trigger] r1[k1].offset as int == j;
        lemma_match_offsets_agree(h, n, r1, r2, r1.len() - 1);
        assert(r1[k1].offset == r2[k1].offset);
        assert(r2[k1].offset < r2[r1.len() as int].offset);
        assert(false);
    }
    if r2.len() < r1.len() {
        let j = r1[r2.len() as int].offset as int;
        assert(is_match_at(h, n, j));
        let k2 = choose|k2: int| 0 <= k2 < r2.len() && #[trigger] r2[k2].offset as int == j;
        lemma_match_offsets_agree(h, n, r1, r2, r2.len() - 1);
        assert(r2[k2].offset == r1[k2].offset);
        assert(r1[k2].offset < r1[r2.len() as int].offset);
        assert(false);
    }
    if r1.len() > 0 {
        lemma_match_offsets_agree(h, n, r1, r2, r1.len() - 1);
    }
    assert forall|k: int| 0 <= k < r1.len() implies r1[k] == r2[k] by {
        assert(r1[k].offset == r2[k].offset);
        assert(r1[k].length == n.len() && r2[k].length == n.len());
    };
    assert(r1 =~= r2);
}

} // verus!
