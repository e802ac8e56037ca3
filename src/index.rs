use vstd::prelude::*;
use vstd::string::StringSliceAdditionalSpecFns;

use crate::bytes::{bytes_equal, dotted, join_dotted, strip_quotes, without_quotes};
use crate::json::{
    decode_object, decoded, members_view, not_an_object, pairs_view, Member, MemberView, Pairs,
};
use crate::shared::{now_as_nanos_u64, same_text};

verus! {

/// Byte of the colon that parts a query's field from its value.
pub const COLON: u8 = 58;

/// Text of the decode error for a document that is not an object.
pub const NOT_AN_OBJECT: &'static str = "nonsense storage can't work without objects";

/// Why an index operation failed.
#[derive(Debug)]
pub enum IndexError {
    UnknownIndexType(String),
    Unimplemented(String),
    DecodeData(String),
    QuerySyntax,
    NotFound,
    Internal(String),
}

/// The text of an index error.
pub open spec fn index_message(e: IndexError) -> Seq<char> {
    match e {
        IndexError::UnknownIndexType(s) => "unknown index type: "@ + s@,
        IndexError::Unimplemented(s) => "index type is not implemented: "@ + s@,
        IndexError::DecodeData(s) => "failed to decode data: "@ + s@,
        IndexError::QuerySyntax => "invalid query syntax"@,
        IndexError::NotFound => "data not found"@,
        IndexError::Internal(s) => "internal error: "@ + s@,
    }
}

impl IndexError {
    /// The error as text for a reader.
    pub fn message(&self) -> (r: String)
        ensures
            r@ == index_message(*self),
    {
        match self {
            IndexError::UnknownIndexType(s) => {
                "unknown index type: ".to_string().concat(s.as_str())
            },
            IndexError::Unimplemented(s) => "index type is not implemented: ".to_string().concat(
                s.as_str(),
            ),
            IndexError::DecodeData(s) => "failed to decode data: ".to_string().concat(s.as_str()),
            IndexError::QuerySyntax => "invalid query syntax".to_string(),
            IndexError::NotFound => "data not found".to_string(),
            IndexError::Internal(s) => "internal error: ".to_string().concat(s.as_str()),
        }
    }
}

/// Number of colons in `q`.
pub open spec fn colons(q: Seq<u8>) -> nat
    decreases q.len(),
{
    if q.len() == 0 {
        0
    } else {
        colons(q.drop_last()) + if q.last() == COLON {
            1nat
        } else {
            0nat
        }
    }
}

/// Position of the first colon in `q`, where it holds one.
pub open spec fn first_colon(q: Seq<u8>) -> int
    decreases q.len(),
{
    if q.len() == 0 {
        0
    } else if colons(q.drop_last()) > 0 {
        first_colon(q.drop_last())
    } else {
        q.len() - 1
    }
}

/// A query `field:value` is split on its first colon: the field before it,
/// the value (which may hold further colons) after it. A query without a
/// colon is malformed.
pub open spec fn split_query(q: Seq<u8>) -> Option<(Seq<u8>, Seq<u8>)> {
    if colons(q) > 0 {
        let i = first_colon(q);
        Some((q.subrange(0, i), q.subrange(i + 1, q.len() as int)))
    } else {
        None
    }
}

proof fn lemma_first_colon(q: Seq<u8>)
    requires
        colons(q) > 0,
    ensures
        0 <= first_colon(q) < q.len(),
        q[first_colon(q)] == COLON,
    decreases q.len(),
{
    if colons(q.drop_last()) > 0 {
        lemma_first_colon(q.drop_last());
    }
}

/// Splits a query into its field and its value.
pub fn parse_query(query: &str) -> (r: Result<(Vec<u8>, Vec<u8>), IndexError>)
    ensures
        match split_query(query.spec_bytes()) {
            Some((f, v)) => r matches Ok((rf, rv)) && rf@ == f && rv@ == v,
            None => r matches Err(IndexError::QuerySyntax),
        },
{
    let q = query.as_bytes();
    let mut count: usize = 0;
    let mut pos: usize = 0;
    let mut i: usize = 0;
    while i < q.len()
        invariant
            0 <= i <= q@.len(),
            count <= 2,
            colons(q@.subrange(0, i as int)) >= 2 ==> count == 2,
            colons(q@.subrange(0, i as int)) < 2 ==> count == colons(q@.subrange(0, i as int)),
            count > 0 ==> pos == first_colon(q@.subrange(0, i as int)),
        decreases q@.len() - i,
    {
        assert(q@.subrange(0, i + 1).drop_last() =~= q@.subrange(0, i as int));
        if q[i] == COLON {
            if count == 0 {
                pos = i;
            }
            if count < 2 {
                count = count + 1;
            }
        }
        i = i + 1;
    }
    assert(q@.subrange(0, q@.len() as int) =~= q@);
    if count == 0 {
        return Err(IndexError::QuerySyntax);
    }
    proof {
        lemma_first_colon(q@);
    }
    let field = vstd::slice::slice_to_vec(vstd::slice::slice_subrange(q, 0, pos));
    let value = vstd::slice::slice_to_vec(vstd::slice::slice_subrange(q, pos + 1, q.len()));
    Ok((field, value))
}

/// The pair indexed for member `m` of an object held under `name`.
pub open spec fn nested_pair(name: Seq<u8>, m: (Seq<u8>, Seq<u8>)) -> (Seq<u8>, Seq<u8>) {
    (dotted(name, m.0), strip_quotes(m.1))
}

/// The pairs indexed for the members `ms` of an object held under `name`.
pub open spec fn nested_pairs(name: Seq<u8>, ms: Seq<(Seq<u8>, Seq<u8>)>) -> Seq<
    (Seq<u8>, Seq<u8>),
> {
    ms.map_values(|m: (Seq<u8>, Seq<u8>)| nested_pair(name, m))
}

/// The (field, value) pairs indexed for one member of an object: a member
/// whose value is an object gives one pair for each of its own members, under
/// the composite name `name.nested`; any other gives one pair under `name`.
/// Values are compact JSON text without double quotes.
pub open spec fn member_pairs(m: MemberView) -> Seq<(Seq<u8>, Seq<u8>)> {
    match m.2 {
        Some(nested) => nested_pairs(m.0, nested),
        None => seq![(m.0, strip_quotes(m.1))],
    }
}

/// The (field, value) pairs indexed for an object with members `ms`, in order.
pub open spec fn object_pairs(ms: Seq<MemberView>) -> Seq<(Seq<u8>, Seq<u8>)>
    decreases ms.len(),
{
    if ms.len() == 0 {
        seq![]
    } else {
        object_pairs(ms.drop_last()) + member_pairs(ms.last())
    }
}

/// The (field, value) pairs of an entry that decodes as a JSON object.
pub open spec fn entry_pairs(data: Seq<u8>) -> Option<Seq<(Seq<u8>, Seq<u8>)>> {
    match decoded(data) {
        Some(Some(ms)) => Some(object_pairs(ms)),
        _ => None,
    }
}

fn push_member_pairs(out: &mut Pairs, m: &Member)
    ensures
        pairs_view(*final(out)) == pairs_view(*old(out)) + member_pairs(m@),
{
    match &m.nested {
        Some(nested) => {
            let ghost start = pairs_view(*out);
            let ghost nv = pairs_view(*nested);
            let mut j: usize = 0;
            while j < nested.len()
                invariant
                    0 <= j <= nested@.len(),
                    nv == pairs_view(*nested),
                    m@.2 == Some(nv),
                    pairs_view(*out) == start + nested_pairs(m@.0, nv.subrange(0, j as int)),
                decreases nested@.len() - j,
            {
                let n = join_dotted(m.name.as_slice(), nested[j].0.as_slice());
                let v = without_quotes(nested[j].1.as_slice());
                let ghost prev = pairs_view(*out);
                let ghost item = (n@, v@);
                assert(nv[j as int] == (nested@[j as int].0@, nested@[j as int].1@));
                out.push((n, v));
                assert(pairs_view(*out) =~= prev.push(item));
                assert(nested_pairs(m@.0, nv.subrange(0, j + 1)) =~= nested_pairs(
                    m@.0,
                    nv.subrange(0, j as int),
                ).push(item));
                j = j + 1;
            }
            assert(nv.subrange(0, nv.len() as int) =~= nv);
        },
        None => {
            let ghost start = pairs_view(*out);
            let n = vstd::slice::slice_to_vec(m.name.as_slice());
            let v = without_quotes(m.text.as_slice());
            out.push((n, v));
            assert(pairs_view(*out) =~= start + seq![(m@.0, strip_quotes(m@.1))]);
        },
    }
}

/// The (field, value) pairs of `data`, or the decode error: `data` must be
/// one well-formed JSON document, and an object.
pub fn entry_pairs_of(data: &[u8]) -> (r: Result<Pairs, IndexError>)
    ensures
        match entry_pairs(data@) {
            Some(ps) => r matches Ok(v) && pairs_view(v) == ps,
            None => r matches Err(IndexError::DecodeData(_)),
        },
        not_an_object(data@) ==> (r matches Err(
            IndexError::DecodeData(m),
        ) && m@ == NOT_AN_OBJECT@),
{
    let ms = match decode_object(data) {
        Ok(Some(ms)) => ms,
        Ok(None) => return Err(IndexError::DecodeData(NOT_AN_OBJECT.to_string())),
        Err(e) => return Err(IndexError::DecodeData(e)),
    };
    let ghost mv = members_view(ms);
    let mut out: Pairs = Vec::new();
    let mut i: usize = 0;
    while i < ms.len()
        invariant
            0 <= i <= ms@.len(),
            mv == members_view(ms),
            pairs_view(out) == object_pairs(mv.subrange(0, i as int)),
        decreases ms@.len() - i,
    {
        assert(mv.subrange(0, i + 1).drop_last() =~= mv.subrange(0, i as int));
        push_member_pairs(&mut out, &ms[i]);
        i = i + 1;
    }
    assert(mv.subrange(0, mv.len() as int) =~= mv);
    Ok(out)
}

/// One indexed fact, viewed: field, value, key of the entry, index time.
pub type PostingView = (Seq<u8>, Seq<u8>, u64, u64);

/// One indexed fact: entry `key` holds `value` under `field`, recorded at
/// `created_at` (nanoseconds).
pub struct Posting {
    pub field: Vec<u8>,
    pub value: Vec<u8>,
    pub key: u64,
    pub created_at: u64,
}

impl View for Posting {
    type V = PostingView;

    open spec fn view(&self) -> PostingView {
        (self.field@, self.value@, self.key, self.created_at)
    }
}

/// The facts recorded for entry `key` with pairs `pairs` at time `t`.
pub open spec fn postings_for(pairs: Seq<(Seq<u8>, Seq<u8>)>, key: u64, t: u64) -> Seq<
    PostingView,
> {
    pairs.map_values(|p: (Seq<u8>, Seq<u8>)| (p.0, p.1, key, t))
}

/// Whether any fact holds `value` under `field`.
pub open spec fn has_bucket(ps: Seq<PostingView>, field: Seq<u8>, value: Seq<u8>) -> bool {
    exists|j: int| 0 <= j < ps.len() && ps[j].0 == field && ps[j].1 == value
}

/// Keys of the facts with `value` under `field` recorded at or after `skip`,
/// in the order the facts were recorded.
pub open spec fn matching_keys(
    ps: Seq<PostingView>,
    field: Seq<u8>,
    value: Seq<u8>,
    skip: u64,
) -> Seq<u64>
    decreases ps.len(),
{
    if ps.len() == 0 {
        seq![]
    } else {
        let rest = matching_keys(ps.drop_last(), field, value, skip);
        let p = ps.last();
        if p.0 == field && p.1 == value && p.3 >= skip {
            rest.push(p.2)
        } else {
            rest
        }
    }
}

/// The default in-memory index: every (field, value) fact of every entry,
/// in the order they were recorded.
pub struct NonsenseIndex {
    postings: Vec<Posting>,
}

impl NonsenseIndex {
    /// The recorded facts, oldest first.
    pub closed spec fn postings(&self) -> Seq<PostingView> {
        self.postings@.map_values(|p: Posting| p@)
    }

    /// An empty index.
    pub fn new() -> (r: NonsenseIndex)
        ensures
            r.postings() == Seq::<PostingView>::empty(),
    {
        let r = NonsenseIndex { postings: Vec::new() };
        assert(r.postings() =~= Seq::<PostingView>::empty());
        r
    }

    /// Records the pairs of entry `key` at time `t`.
    pub fn add(&mut self, key: u64, pairs: &Pairs, t: u64)
        ensures
            final(self).postings() == old(self).postings() + postings_for(
                pairs_view(*pairs),
                key,
                t,
            ),
    {
        let ghost start = self.postings();
        let ghost pv = pairs_view(*pairs);
        let mut i: usize = 0;
        while i < pairs.len()
            invariant
                0 <= i <= pairs@.len(),
                pv == pairs_view(*pairs),
                self.postings() == start + postings_for(pv.subrange(0, i as int), key, t),
            decreases pairs@.len() - i,
        {
            let field = vstd::slice::slice_to_vec(pairs[i].0.as_slice());
            let value = vstd::slice::slice_to_vec(pairs[i].1.as_slice());
            let ghost prev = self.postings();
            let p = Posting { field, value, key, created_at: t };
            assert(p@ == (pv[i as int].0, pv[i as int].1, key, t));
            self.postings.push(p);
            assert(self.postings() =~= prev.push(p@));
            assert(postings_for(pv.subrange(0, i + 1), key, t) =~= postings_for(
                pv.subrange(0, i as int),
                key,
                t,
            ).push(p@));
            i = i + 1;
        }
        assert(pv.subrange(0, pv.len() as int) =~= pv);
    }

    /// Indexes entry `key` with contents `data`, recording its facts at time
    /// `created_at`. Fails, leaving the index as it was, where `data` is not
    /// a JSON object.
    pub fn index_at(&mut self, key: u64, data: &[u8], created_at: u64) -> (r: Result<
        (),
        IndexError,
    >)
        ensures
            match entry_pairs(data@) {
                Some(ps) => r is Ok && final(self).postings() == old(self).postings()
                    + postings_for(ps, key, created_at),
                None => r matches Err(IndexError::DecodeData(_)) && final(self).postings()
                    == old(self).postings(),
            },
            not_an_object(data@) ==> (r matches Err(
                IndexError::DecodeData(m),
            ) && m@ == NOT_AN_OBJECT@),
    {
        let pairs = entry_pairs_of(data)?;
        self.add(key, &pairs, created_at);
        Ok(())
    }

    /// Indexes entry `key` with contents `data`, recording its facts at the
    /// current time. Fails, leaving the index as it was, where `data` is not
    /// a JSON object or the clock cannot be read.
    pub fn index(&mut self, key: u64, data: &[u8]) -> (r: Result<(), IndexError>)
        ensures
            entry_pairs(data@) is None ==> r matches Err(IndexError::DecodeData(_)),
            not_an_object(data@) ==> (r matches Err(
                IndexError::DecodeData(m),
            ) && m@ == NOT_AN_OBJECT@),
            r is Err ==> final(self).postings() == old(self).postings(),
            r is Err && entry_pairs(data@) is Some ==> r matches Err(IndexError::Internal(_)),
            r is Ok ==> exists|t: u64|
                final(self).postings() == old(self).postings() + postings_for(
                    entry_pairs(data@).unwrap(),
                    key,
                    t,
                ),
    {
        let pairs = entry_pairs_of(data)?;
        let t = match now_as_nanos_u64() {
            Ok(t) => t,
            Err(e) => return Err(IndexError::Internal(e)),
        };
        self.add(key, &pairs, t);
        Ok(())
    }

    /// Keys of the entries that hold `value` under `field`, indexed at or
    /// after `skip`; `NotFound` where no entry ever held that value there.
    pub fn find_pair(&self, field: &Vec<u8>, value: &Vec<u8>, skip: u64) -> (r: Result<
        Vec<u64>,
        IndexError,
    >)
        ensures
            has_bucket(self.postings(), field@, value@) ==> (r matches Ok(ks) && ks@
                == matching_keys(self.postings(), field@, value@, skip)),
            !has_bucket(self.postings(), field@, value@) ==> r matches Err(IndexError::NotFound),
    {
        let ghost ps = self.postings();
        let mut keys: Vec<u64> = Vec::new();
        let mut found = false;
        let mut i: usize = 0;
        while i < self.postings.len()
            invariant
                0 <= i <= self.postings@.len(),
                ps == self.postings(),
                keys@ == matching_keys(ps.subrange(0, i as int), field@, value@, skip),
                found == has_bucket(ps.subrange(0, i as int), field@, value@),
            decreases self.postings@.len() - i,
        {
            let p = &self.postings[i];
            assert(ps[i as int] == p@);
            assert(ps.subrange(0, i + 1).drop_last() =~= ps.subrange(0, i as int));
            let same = bytes_equal(p.field.as_slice(), field.as_slice()) && bytes_equal(
                p.value.as_slice(),
                value.as_slice(),
            );
            if same && p.created_at >= skip {
                keys.push(p.key);
            }
            proof {
                let pre = ps.subrange(0, i as int);
                let post = ps.subrange(0, i + 1);
                if same {
                    assert(post[i as int] == p@);
                } else if has_bucket(post, field@, value@) {
                    let j = choose|j: int|
                        0 <= j < post.len() && post[j].0 == field@ && post[j].1 == value@;
                    assert(j != i);
                    assert(pre[j] == post[j]);
                }
                if has_bucket(pre, field@, value@) {
                    let j = choose|j: int|
                        0 <= j < pre.len() && pre[j].0 == field@ && pre[j].1 == value@;
                    assert(post[j] == pre[j]);
                }
            }
            found = found || same;
            i = i + 1;
        }
        assert(ps.subrange(0, ps.len() as int) =~= ps);
        if found {
            Ok(keys)
        } else {
            Err(IndexError::NotFound)
        }
    }

    /// Answers query `field:value` with the keys of the matching entries
    /// indexed at or after `skip`, split on its first colon: `QuerySyntax`
    /// for a query without a colon, `NotFound` where no entry ever held that
    /// value there.
    pub fn find(&self, query: &str, skip: u64) -> (r: Result<Vec<u64>, IndexError>)
        ensures
            match split_query(query.spec_bytes()) {
                None => r matches Err(IndexError::QuerySyntax),
                Some((f, v)) => if has_bucket(self.postings(), f, v) {
                    r matches Ok(ks) && ks@ == matching_keys(self.postings(), f, v, skip)
                } else {
                    r matches Err(IndexError::NotFound)
                },
            },
    {
        let (field, value) = parse_query(query)?;
        self.find_pair(&field, &value, skip)
    }
}

/// Name of the default in-memory index.
pub const NONSENSE: &'static str = "nonsense";

/// Name of the full-text index, which has no implementation.
pub const TANTIVY: &'static str = "tantivy";

/// Name of an index kind that is not known.
pub const UNKNOWN: &'static str = "unknown";

/// The kinds of index a configuration can name.
#[derive(Debug, Clone, Copy, PartialEq, Eq, Structural)]
pub enum IndexType {
    Unknown,
    Tantivy,
    Nonsense,
}

impl IndexType {
    /// The kind that `name` names.
    pub fn from_name(name: &str) -> (r: IndexType)
        ensures
            name@ == NONSENSE@ ==> r == IndexType::Nonsense,
            name@ == TANTIVY@ ==> r == IndexType::Tantivy,
            name@ != NONSENSE@ && name@ != TANTIVY@ ==> r == IndexType::Unknown,
    {
        proof {
            reveal_strlit("nonsense");
            reveal_strlit("tantivy");
            assert(NONSENSE@.len() != TANTIVY@.len());
        }
        if same_text(name, TANTIVY) {
            IndexType::Tantivy
        } else if same_text(name, NONSENSE) {
            IndexType::Nonsense
        } else {
            IndexType::Unknown
        }
    }

    /// The name of this kind.
    pub fn name(&self) -> (r: &'static str)
        ensures
            *self == IndexType::Nonsense ==> r@ == NONSENSE@,
            *self == IndexType::Tantivy ==> r@ == TANTIVY@,
            *self == IndexType::Unknown ==> r@ == UNKNOWN@,
    {
        match self {
            IndexType::Unknown => UNKNOWN,
            IndexType::Tantivy => TANTIVY,
            IndexType::Nonsense => NONSENSE,
        }
    }
}

/// A fresh, empty index of the kind that `index_name` names. Only the
/// default in-memory index can be built.
pub fn new_index(index_name: &str) -> (r: Result<NonsenseIndex, IndexError>)
    ensures
        index_name@ == NONSENSE@ ==> (r matches Ok(ix) && ix.postings() == Seq::<
            PostingView,
        >::empty()),
        index_name@ == TANTIVY@ ==> (r matches Err(IndexError::Unimplemented(n)) && n@
            == index_name@),
        index_name@ != NONSENSE@ && index_name@ != TANTIVY@ ==> (r matches Err(
            IndexError::UnknownIndexType(n),
        ) && n@ == index_name@),
{
    match IndexType::from_name(index_name) {
        IndexType::Nonsense => Ok(NonsenseIndex::new()),
        IndexType::Tantivy => Err(IndexError::Unimplemented(index_name.to_string())),
        IndexType::Unknown => Err(IndexError::UnknownIndexType(index_name.to_string())),
    }
}

} // verus!
