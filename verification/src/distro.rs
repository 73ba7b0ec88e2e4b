//! Foreign-subsystem distribution identifiers and the installed-distro
//! snapshot.
//!
//! A distribution is identified by a GUID.  The engines only ever read,
//! compare and store its text form, so the identifier is kept as its
//! canonical text: braced, lowercase, `8-4-4-4-12` hexadecimal.

use vstd::prelude::*;
use vstd::multiset::Multiset;
use crate::strutil::{push_char, str_eq, substring_owned};

verus! {

/// Whether `c` is a lowercase hexadecimal digit.
pub open spec fn is_hex_lower(c: char) -> bool {
    (48 <= c as u32 <= 57) || (97 <= c as u32 <= 102)
}

/// Whether `c` is a hexadecimal digit of either case.
pub open spec fn is_hex(c: char) -> bool {
    is_hex_lower(c) || (65 <= c as u32 <= 70)
}

/// Lowercase an uppercase hexadecimal digit; other characters unchanged.
pub open spec fn hex_lower(c: char) -> char {
    if c == 'A' {
        'a'
    } else if c == 'B' {
        'b'
    } else if c == 'C' {
        'c'
    } else if c == 'D' {
        'd'
    } else if c == 'E' {
        'e'
    } else if c == 'F' {
        'f'
    } else {
        c
    }
}

/// Whether position `k` holds a hyphen in the `8-4-4-4-12` layout.
pub open spec fn is_hyphen_pos(k: int) -> bool {
    k == 8 || k == 13 || k == 18 || k == 23
}

/// Whether `t` is a well-formed GUID body of either case.
pub open spec fn guid_body_ok(t: Seq<char>) -> bool {
    t.len() == 36 && forall|k: int|
        0 <= k < 36 ==> if is_hyphen_pos(k) {
            t[k] == '-'
        } else {
            is_hex(t[k])
        }
}

/// The canonical (lowercase) form of a GUID body.
pub open spec fn guid_body_canon(t: Seq<char>) -> Seq<char> {
    Seq::new(36, |k: int| hex_lower(t[k]))
}

/// Leading `{` characters removed.
pub open spec fn trim_leading_braces(s: Seq<char>) -> Seq<char>
    decreases s.len(),
{
    if s.len() > 0 && s[0] == '{' {
        trim_leading_braces(s.drop_first())
    } else {
        s
    }
}

/// Trailing `}` characters removed.
pub open spec fn trim_trailing_braces(s: Seq<char>) -> Seq<char>
    decreases s.len(),
{
    if s.len() > 0 && s[s.len() - 1] == '}' {
        trim_trailing_braces(s.drop_last())
    } else {
        s
    }
}

/// The GUID body that a distro-id string denotes: the string with its
/// surrounding braces removed.
pub open spec fn spec_guid_trim(s: Seq<char>) -> Seq<char> {
    trim_trailing_braces(trim_leading_braces(s))
}

/// Whether a distro-id string parses: after brace removal, a well-formed
/// GUID body remains.
pub open spec fn spec_guid_parseable(s: Seq<char>) -> bool {
    guid_body_ok(spec_guid_trim(s))
}

/// The canonical text of a parsed distro-id: braced lowercase body.
pub open spec fn spec_guid_canon(s: Seq<char>) -> Seq<char> {
    seq!['{'] + guid_body_canon(spec_guid_trim(s)) + seq!['}']
}

/// A distribution identifier in canonical text form.
#[derive(Debug)]
pub struct DistroGUID {
    /// Canonical text: braced, lowercase, `8-4-4-4-12` hexadecimal.
    pub s: String,
}

impl DistroGUID {
    /// Well-formedness: the text is canonical.
    pub open spec fn wf(&self) -> bool {
        self.s@.len() == 38 && self.s@[0] == '{' && self.s@[37] == '}' && guid_body_ok(
            self.s@.subrange(1, 37),
        ) && forall|k: int| 1 <= k < 37 ==> is_hex_lower(self.s@[k]) || self.s@[k] == '-'
    }

    /// Parse a distro-id string: surrounding braces are ignored, hex
    /// digits of either case are accepted, and the canonical lowercase
    /// braced form is kept.  `None` when no well-formed GUID body remains.
    pub fn from_str(s: &str) -> (r: Option<DistroGUID>)
        ensures
            match r {
                Some(g) => spec_guid_parseable(s@) && g.s@ == spec_guid_canon(s@) && g.wf(),
                None => !spec_guid_parseable(s@),
            },
    {
        let len = s.unicode_len();
        proof {
            assert(s@.skip(0) =~= s@);
        }
        // skip leading '{' and trailing '}'
        let mut lo: usize = 0;
        while lo < len && s.get_char(lo) == '{'
            invariant
                lo <= len,
            len == s@.len(),
                forall|k: int| 0 <= k < lo ==> s@[k] == '{',
                trim_leading_braces(s@) == trim_leading_braces(s@.skip(lo as int)),
            decreases len - lo,
        {
            proof {
                assert(s@.skip(lo as int).drop_first() =~= s@.skip(lo + 1));
            }
            lo = lo + 1;
        }
        let mut hi: usize = len;
        proof {
            assert(s@.skip(lo as int) =~= s@.subrange(lo as int, len as int));
        }
        while hi > lo && s.get_char(hi - 1) == '}'
            invariant
                lo <= hi <= len,
                len == s@.len(),
                trim_leading_braces(s@) == trim_leading_braces(s@.skip(lo as int)),
                lo < len ==> s@[lo as int] != '{',
                trim_trailing_braces(s@.skip(lo as int)) == trim_trailing_braces(
                    s@.subrange(lo as int, hi as int),
                ),
            decreases hi,
        {
            proof {
                assert(s@.subrange(lo as int, hi as int).drop_last() =~= s@.subrange(
                    lo as int,
                    hi - 1,
                ));
            }
            hi = hi - 1;
        }
        let ghost body = spec_guid_trim(s@);
        proof {
            if lo < len {
                assert(trim_leading_braces(s@.skip(lo as int)) =~= s@.skip(lo as int));
            } else {
                assert(s@.skip(lo as int) =~= Seq::<char>::empty());
                assert(trim_leading_braces(s@.skip(lo as int)) =~= Seq::<char>::empty());
            }
            if hi > lo {
                assert(trim_trailing_braces(s@.subrange(lo as int, hi as int)) =~= s@.subrange(
                    lo as int,
                    hi as int,
                ));
            } else {
                assert(s@.subrange(lo as int, hi as int) =~= Seq::<char>::empty());
                assert(trim_trailing_braces(s@.subrange(lo as int, hi as int)) =~= Seq::<
                    char,
                >::empty());
            }
            assert(body =~= s@.subrange(lo as int, hi as int));
        }
        if hi - lo != 36 {
            return None;
        }
        let mut out = String::new();
        push_char(&mut out, '{');
        let mut k: usize = 0;
        while k < 36
            invariant
                k <= 36,
                len == s@.len(),
                lo + 36 == hi <= len,
                body == spec_guid_trim(s@),
                body == s@.subrange(lo as int, hi as int),
                out@.len() == 1 + k,
                out@[0] == '{',
                forall|j: int| 0 <= j < k ==> out@[1 + j] == hex_lower(body[j]),
                forall|j: int|
                    0 <= j < k ==> if is_hyphen_pos(j) {
                        body[j] == '-'
                    } else {
                        is_hex(body[j])
                    },
            decreases 36 - k,
        {
            let c = s.get_char(lo + k);
            assert(c == body[k as int]);
            let v = c as u32;
            let is_hyphen = k == 8 || k == 13 || k == 18 || k == 23;
            if is_hyphen {
                if c != '-' {
                    assert(is_hyphen_pos(k as int) && body[k as int] != '-');
                    assert(!guid_body_ok(body));
                    return None;
                }
                push_char(&mut out, '-');
                proof {
                    assert(hex_lower('-') == '-');
                }
            } else if (48 <= v && v <= 57) || (97 <= v && v <= 102) {
                push_char(&mut out, c);
                proof {
                    assert(hex_lower(c) == c);
                }
            } else if 65 <= v && v <= 70 {
                let lower = match c {
                    'A' => 'a',
                    'B' => 'b',
                    'C' => 'c',
                    'D' => 'd',
                    'E' => 'e',
                    _ => 'f',
                };
                assert(lower == hex_lower(c));
                push_char(&mut out, lower);
            } else {
                assert(!is_hyphen_pos(k as int) && !is_hex(body[k as int]));
                assert(!guid_body_ok(body));
                return None;
            }
            k = k + 1;
        }
        push_char(&mut out, '}');
        proof {
            assert(guid_body_ok(body));
            assert(out@ =~= seq!['{'] + guid_body_canon(body) + seq!['}']);
            let g = DistroGUID { s: out };
            assert(g.s@.subrange(1, 37) =~= guid_body_canon(body));
            assert forall|j: int| 0 <= j < 36 implies #[trigger] guid_body_canon(body)[j] == '-'
                || is_hex_lower(guid_body_canon(body)[j]) by {
                if is_hyphen_pos(j) {
                } else {
                    assert(is_hex(body[j]));
                }
            }
        }
        Some(DistroGUID { s: out })
    }

    /// The canonical text of the identifier.
    pub fn to_string(&self) -> (r: String)
        ensures
            r@ == self.s@,
    {
        self.s.clone()
    }

    /// Whether two identifiers denote the same distribution.
    pub fn same(&self, other: &DistroGUID) -> (r: bool)
        ensures
            r <==> self.s@ == other.s@,
    {
        str_eq(self.s.as_str(), other.s.as_str())
    }
}

impl Clone for DistroGUID {
    fn clone(&self) -> (r: Self)
        ensures
            r == *self,
    {
        DistroGUID { s: self.s.clone() }
    }
}

/// Snapshot of the installed distributions: identifier/display-name pairs
/// and the marked default, if any.
pub struct Distros {
    pub list: Vec<(DistroGUID, String)>,
    pub default: Option<DistroGUID>,
}

/// The map that a pair list denotes, from identifier text to display name.
pub open spec fn distro_map(s: Seq<(DistroGUID, String)>) -> Map<Seq<char>, Seq<char>>
    decreases s.len(),
{
    if s.len() == 0 {
        Map::empty()
    } else {
        distro_map(s.drop_last()).insert(s.last().0.s@, s.last().1@)
    }
}

impl Default for Distros {
    /// An empty snapshot with no default.
    fn default() -> (r: Self)
        ensures
            r.wf(),
            r.list@.len() == 0,
            r.default is None,
    {
        Distros { list: Vec::new(), default: None }
    }
}

impl Distros {
    /// Well-formedness: identifiers are canonical and pairwise distinct.
    pub open spec fn wf(&self) -> bool {
        (forall|i: int| 0 <= i < self.list@.len() ==> (#[trigger] self.list@[i].0).wf()) && (
        forall|i: int, j: int|
            0 <= i < j < self.list@.len() ==> self.list@[i].0.s@ != self.list@[j].0.s@) && match self
            .default {
            Some(d) => d.wf(),
            None => true,
        }
    }

    /// An empty snapshot with no default.
    pub fn new_empty() -> (r: Self)
        ensures
            r.wf(),
            r.list@.len() == 0,
            r.default is None,
            distro_map(r.list@) == Map::<Seq<char>, Seq<char>>::empty(),
    {
        Distros { list: Vec::new(), default: None }
    }

    /// Insert a pair, replacing the display name if the identifier is
    /// already present.
    pub fn insert(&mut self, guid: DistroGUID, name: String)
        requires
            old(self).wf(),
            guid.wf(),
        ensures
            final(self).wf(),
            distro_map(final(self).list@) == distro_map(old(self).list@).insert(guid.s@, name@),
            final(self).default == old(self).default,
    {
        let n = self.list.len();
        let mut i: usize = 0;
        while i < n
            invariant
                i <= n,
                n == self.list@.len(),
                *self == *old(self),
                old(self).wf(),
                guid.wf(),
                forall|k: int| 0 <= k < i ==> self.list@[k].0.s@ != guid.s@,
            decreases n - i,
        {
            if self.list[i].0.same(&guid) {
                let _ = self.list.set(i, (guid, name));
                proof {
                    lemma_distro_map_replace(old(self).list@, self.list@, i as int);
                }
                return ;
            }
            i = i + 1;
        }
        self.list.push((guid, name));
        proof {
            assert(self.list@.drop_last() =~= old(self).list@);
        }
    }
}

/// Lexicographic order on character sequences by code point.
pub open spec fn lex_le(a: Seq<char>, b: Seq<char>) -> bool
    decreases a.len(),
{
    if a.len() == 0 {
        true
    } else if b.len() == 0 {
        false
    } else if (a[0] as u32) < (b[0] as u32) {
        true
    } else if (a[0] as u32) > (b[0] as u32) {
        false
    } else {
        lex_le(a.drop_first(), b.drop_first())
    }
}

proof fn lemma_lex_total(a: Seq<char>, b: Seq<char>)
    ensures
        lex_le(a, b) || lex_le(b, a),
    decreases a.len(),
{
    if a.len() > 0 && b.len() > 0 && a[0] as u32 == b[0] as u32 {
        lemma_lex_total(a.drop_first(), b.drop_first());
    }
}

proof fn lemma_lex_trans(a: Seq<char>, b: Seq<char>, c: Seq<char>)
    requires
        lex_le(a, b),
        lex_le(b, c),
    ensures
        lex_le(a, c),
    decreases a.len(),
{
    if a.len() > 0 && b.len() > 0 && c.len() > 0 && a[0] as u32 == b[0] as u32 && b[0] as u32 == c[0]
        as u32 {
        lemma_lex_trans(a.drop_first(), b.drop_first(), c.drop_first());
    }
}

/// Compare two strings lexicographically by code point.
pub fn str_lex_le(a: &str, b: &str) -> (r: bool)
    ensures
        r == lex_le(a@, b@),
{
    let la = a.unicode_len();
    let lb = b.unicode_len();
    let mut i: usize = 0;
    proof {
        assert(a@.skip(0) =~= a@);
        assert(b@.skip(0) =~= b@);
    }
    loop
        invariant
            i <= la,
            i <= lb,
            la == a@.len(),
            lb == b@.len(),
            lex_le(a@, b@) == lex_le(a@.skip(i as int), b@.skip(i as int)),
        decreases la - i,
    {
        if i >= la {
            proof {
                assert(a@.skip(i as int).len() == 0);
            }
            return true;
        }
        if i >= lb {
            proof {
                assert(b@.skip(i as int).len() == 0);
                assert(a@.skip(i as int).len() > 0);
            }
            return false;
        }
        let ca = a.get_char(i) as u32;
        let cb = b.get_char(i) as u32;
        proof {
            assert(a@.skip(i as int)[0] == a@[i as int]);
            assert(b@.skip(i as int)[0] == b@[i as int]);
        }
        if ca < cb {
            return true;
        }
        if ca > cb {
            return false;
        }
        proof {
            assert(a@.skip(i as int).drop_first() =~= a@.skip(i + 1));
            assert(b@.skip(i as int).drop_first() =~= b@.skip(i + 1));
        }
        i = i + 1;
    }
}

/// The view of a pair for ordering: identifier text and display name.
pub open spec fn pair_view(p: (DistroGUID, String)) -> (Seq<char>, Seq<char>) {
    (p.0.s@, p.1@)
}

/// Presentation order of the pairs: the default distribution first, all
/// others by display name.
pub open spec fn pair_le(
    dflt: Option<Seq<char>>,
    x: (Seq<char>, Seq<char>),
    y: (Seq<char>, Seq<char>),
) -> bool {
    match dflt {
        Some(d) => x.0 == d || (y.0 != d && lex_le(x.1, y.1)),
        None => lex_le(x.1, y.1),
    }
}

proof fn lemma_pair_total(dflt: Option<Seq<char>>, x: (Seq<char>, Seq<char>), y: (Seq<char>, Seq<char>))
    ensures
        pair_le(dflt, x, y) || pair_le(dflt, y, x),
{
    lemma_lex_total(x.1, y.1);
}

proof fn lemma_pair_trans(
    dflt: Option<Seq<char>>,
    x: (Seq<char>, Seq<char>),
    y: (Seq<char>, Seq<char>),
    z: (Seq<char>, Seq<char>),
)
    requires
        pair_le(dflt, x, y),
        pair_le(dflt, y, z),
    ensures
        pair_le(dflt, x, z),
{
    match dflt {
        Some(d) => {
            if x.0 != d {
                lemma_lex_trans(x.1, y.1, z.1);
            }
        },
        None => {
            lemma_lex_trans(x.1, y.1, z.1);
        },
    }
}

/// Whether a pair list stands in presentation order.
pub open spec fn pairs_sorted(dflt: Option<Seq<char>>, s: Seq<(DistroGUID, String)>) -> bool {
    forall|i: int, j: int|
        0 <= i < j < s.len() ==> pair_le(dflt, pair_view(s[i]), pair_view(s[j]))
}

/// Compare two pairs in presentation order.
fn pair_le_exec(dflt: &Option<DistroGUID>, x: &(DistroGUID, String), y: &(DistroGUID, String)) -> (r:
    bool)
    ensures
        r == pair_le(
            match dflt {
                Some(d) => Some(d.s@),
                None => None,
            },
            pair_view(*x),
            pair_view(*y),
        ),
{
    match dflt {
        Some(d) => {
            if x.0.same(d) {
                true
            } else if y.0.same(d) {
                false
            } else {
                str_lex_le(x.1.as_str(), y.1.as_str())
            }
        },
        None => str_lex_le(x.1.as_str(), y.1.as_str()),
    }
}

proof fn lemma_to_multiset_insert(s: Seq<(DistroGUID, String)>, j: int, x: (DistroGUID, String))
    requires
        0 <= j <= s.len(),
    ensures
        s.insert(j, x).to_multiset() == s.to_multiset().insert(x),
{
    broadcast use vstd::multiset::group_multiset_axioms;

    assert(s.insert(j, x) =~= s.take(j) + (seq![x] + s.skip(j)));
    vstd::seq_lib::lemma_multiset_commutative(s.take(j), seq![x] + s.skip(j));
    vstd::seq_lib::lemma_multiset_commutative(seq![x], s.skip(j));
    vstd::seq_lib::lemma_multiset_commutative(s.take(j), s.skip(j));
    assert(s =~= s.take(j) + s.skip(j));
    assert(seq![x] =~= Seq::<(DistroGUID, String)>::empty().push(x));
    Seq::<(DistroGUID, String)>::empty().to_multiset_ensures();
    assert(Seq::<(DistroGUID, String)>::empty().to_multiset() =~= Multiset::empty());
    assert(seq![x].to_multiset() =~= Multiset::empty().insert(x));
    assert(s.insert(j, x).to_multiset() =~= s.to_multiset().insert(x));
}

impl Distros {
    /// The identifier text of the marked default, if any.
    pub open spec fn spec_default_id(&self) -> Option<Seq<char>> {
        match self.default {
            Some(d) => Some(d.s@),
            None => None,
        }
    }

    /// The pairs in presentation order: the default distribution first,
    /// all others by display name.
    pub fn sorted_pairs(&self) -> (r: Vec<(DistroGUID, String)>)
        ensures
            r@.to_multiset() == self.list@.to_multiset(),
            pairs_sorted(self.spec_default_id(), r@),
    {
        let ghost dv = self.spec_default_id();
        let mut out: Vec<(DistroGUID, String)> = Vec::new();
        let n = self.list.len();
        let mut i: usize = 0;
        proof {
            assert(self.list@.take(0) =~= Seq::<(DistroGUID, String)>::empty());
            Seq::<(DistroGUID, String)>::empty().to_multiset_ensures();
            assert(out@.to_multiset() =~= self.list@.take(0).to_multiset());
        }
        while i < n
            invariant
                i <= n,
                n == self.list@.len(),
                dv == self.spec_default_id(),
                out@.to_multiset() == self.list@.take(i as int).to_multiset(),
                pairs_sorted(dv, out@),
            decreases n - i,
        {
            let item = (self.list[i].0.clone(), self.list[i].1.clone());
            proof {
                assert(item == self.list@[i as int]);
            }
            let ghost before = out@;
            let mut j = out.len();
            loop
                invariant_except_break
                    j <= out@.len(),
                invariant
                    out@ == before,
                    dv == self.spec_default_id(),
                    forall|k: int|
                        j <= k < out@.len() ==> !pair_le(dv, pair_view(out@[k]), pair_view(item)),
                ensures
                    j <= out@.len(),
                    out@ == before,
                    j > 0 ==> pair_le(dv, pair_view(out@[j - 1]), pair_view(item)),
                    forall|k: int|
                        j <= k < out@.len() ==> !pair_le(dv, pair_view(out@[k]), pair_view(item)),
                decreases j,
            {
                if j == 0 {
                    break ;
                }
                if pair_le_exec(&self.default, &out[j - 1], &item) {
                    break ;
                }
                j = j - 1;
            }
            out.insert(j, item);
            proof {
                lemma_to_multiset_insert(before, j as int, item);
                assert(self.list@.take(i + 1).drop_last() =~= self.list@.take(i as int));
                assert(self.list@.take(i + 1).last() == self.list@[i as int]);
                self.list@.take(i as int).to_multiset_ensures();
                assert(self.list@.take(i + 1) =~= self.list@.take(i as int).push(
                    self.list@[i as int],
                ));
                assert(out@.to_multiset() =~= self.list@.take(i + 1).to_multiset());
                // the inserted element stands in order with both sides
                assert forall|p: int, q: int|
                    0 <= p < q < out@.len() implies pair_le(
                    dv,
                    pair_view(out@[p]),
                    pair_view(out@[q]),
                ) by {
                    if q < j {
                        assert(out@[p] == before[p] && out@[q] == before[q]);
                    } else if p > j {
                        assert(out@[p] == before[p - 1] && out@[q] == before[q - 1]);
                    } else if p < j && q == j {
                        assert(out@[p] == before[p]);
                        if p == j - 1 {
                        } else {
                            assert(pair_le(dv, pair_view(before[p]), pair_view(before[j - 1])));
                            lemma_pair_trans(
                                dv,
                                pair_view(before[p]),
                                pair_view(before[j - 1]),
                                pair_view(item),
                            );
                        }
                    } else if p == j && q > j {
                        assert(out@[q] == before[q - 1]);
                        assert(!pair_le(dv, pair_view(before[q - 1]), pair_view(item)));
                        lemma_pair_total(dv, pair_view(item), pair_view(before[q - 1]));
                    } else if p < j && q > j {
                        assert(out@[p] == before[p] && out@[q] == before[q - 1]);
                        if p <= j - 1 && j - 1 <= q - 1 && p < q - 1 {
                            assert(pair_le(dv, pair_view(before[p]), pair_view(before[q - 1])));
                        }
                    }
                }
            }
            i = i + 1;
        }
        proof {
            assert(self.list@.take(n as int) =~= self.list@);
        }
        out
    }
}

/// Replacing the pair at a position whose identifier already maps, with a
/// pair of the same identifier, updates the map in place.
proof fn lemma_distro_map_replace(a: Seq<(DistroGUID, String)>, b: Seq<(DistroGUID, String)>, i: int)
    requires
        0 <= i < a.len(),
        b.len() == a.len(),
        forall|k: int| 0 <= k < a.len() && k != i ==> a[k] == b[k],
        b[i].0.s@ == a[i].0.s@,
        forall|p: int, q: int| 0 <= p < q < a.len() ==> a[p].0.s@ != a[q].0.s@,
    ensures
        distro_map(b) == distro_map(a).insert(b[i].0.s@, b[i].1@),
    decreases a.len(),
{
    if i == a.len() - 1 {
        assert(a.drop_last() =~= b.drop_last());
        assert(distro_map(b) == distro_map(b.drop_last()).insert(b[i].0.s@, b[i].1@));
    } else {
        assert(forall|k: int|
            0 <= k < a.drop_last().len() && k != i ==> a.drop_last()[k] == b.drop_last()[k]);
        assert(forall|p: int, q: int|
            0 <= p < q < a.drop_last().len() ==> a.drop_last()[p].0.s@ != a.drop_last()[q].0.s@);
        lemma_distro_map_replace(a.drop_last(), b.drop_last(), i);
        assert(a.last() == b.last());
        assert(a.last().0.s@ != b[i].0.s@);
        assert(distro_map(b) == distro_map(b.drop_last()).insert(a.last().0.s@, a.last().1@));
        assert(distro_map(a).insert(b[i].0.s@, b[i].1@) =~= distro_map(b));
    }
}

} // verus!
