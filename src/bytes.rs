use vstd::prelude::*;

verus! {

/// Byte of the double quote character.
pub const QUOTE: u8 = 34;

/// Byte of the dot that joins a parent field name to a nested one.
pub const DOT: u8 = 46;

/// `s` without any double quote byte.
pub open spec fn strip_quotes(s: Seq<u8>) -> Seq<u8>
    decreases s.len(),
{
    if s.len() == 0 {
        s
    } else if s.last() == QUOTE {
        strip_quotes(s.drop_last())
    } else {
        strip_quotes(s.drop_last()).push(s.last())
    }
}

/// The composite name `parent.child`.
pub open spec fn dotted(parent: Seq<u8>, child: Seq<u8>) -> Seq<u8> {
    parent + seq![DOT] + child
}

/// Whether the two byte strings are equal.
pub fn bytes_equal(a: &[u8], b: &[u8]) -> (r: bool)
    ensures
        r == (a@ == b@),
{
    if a.len() != b.len() {
        return false;
    }
    let mut i: usize = 0;
    while i < a.len()
        invariant
            a@.len() == b@.len(),
            0 <= i <= a@.len(),
            forall|j: int| 0 <= j < i ==> a@[j] == b@[j],
        decreases a@.len() - i,
    {
        if a[i] != b[i] {
            return false;
        }
        i = i + 1;
    }
    assert(a@ =~= b@);
    true
}

/// Whether `s` begins with `prefix`.
pub fn starts_with(s: &[u8], prefix: &[u8]) -> (r: bool)
    ensures
        r == (prefix@.len() <= s@.len() && s@.subrange(0, prefix@.len() as int) == prefix@),
{
    if prefix.len() > s.len() {
        return false;
    }
    let mut i: usize = 0;
    while i < prefix.len()
        invariant
            prefix@.len() <= s@.len(),
            0 <= i <= prefix@.len(),
            forall|j: int| 0 <= j < i ==> s@[j] == prefix@[j],
        decreases prefix@.len() - i,
    {
        if s[i] != prefix[i] {
            assert(s@.subrange(0, prefix@.len() as int)[i as int] != prefix@[i as int]);
            return false;
        }
        i = i + 1;
    }
    assert(s@.subrange(0, prefix@.len() as int) =~= prefix@);
    true
}

/// A copy of `s` without its double quote bytes.
pub fn without_quotes(s: &[u8]) -> (r: Vec<u8>)
    ensures
        r@ == strip_quotes(s@),
{
    let mut r: Vec<u8> = Vec::new();
    let mut i: usize = 0;
    while i < s.len()
        invariant
            0 <= i <= s@.len(),
            r@ == strip_quotes(s@.subrange(0, i as int)),
        decreases s@.len() - i,
    {
        assert(s@.subrange(0, i + 1).drop_last() =~= s@.subrange(0, i as int));
        if s[i] != QUOTE {
            r.push(s[i]);
        }
        i = i + 1;
    }
    assert(s@.subrange(0, s@.len() as int) =~= s@);
    r
}

/// The composite name `parent.child`.
pub fn join_dotted(parent: &[u8], child: &[u8]) -> (r: Vec<u8>)
    ensures
        r@ == dotted(parent@, child@),
{
    let mut r = vstd::slice::slice_to_vec(parent);
    r.push(DOT);
    let mut i: usize = 0;
    while i < child.len()
        invariant
            0 <= i <= child@.len(),
            r@ == parent@ + seq![DOT] + child@.subrange(0, i as int),
        decreases child@.len() - i,
    {
        r.push(child[i]);
        i = i + 1;
        assert(r@ =~= parent@ + seq![DOT] + child@.subrange(0, i as int));
    }
    assert(child@.subrange(0, child@.len() as int) =~= child@);
    r
}

/// Byte of the line feed that ends a frame.
pub const NEWLINE: u8 = 10;

/// Whether `s` begins with `prefix`.
pub open spec fn has_prefix(s: Seq<u8>, prefix: Seq<u8>) -> bool {
    prefix.len() <= s.len() && s.subrange(0, prefix.len() as int) == prefix
}

/// `s` without one trailing line feed, where it ends with one.
pub open spec fn line_of(s: Seq<u8>) -> Seq<u8> {
    if s.len() > 0 && s.last() == NEWLINE {
        s.drop_last()
    } else {
        s
    }
}

/// Appends `b` to `out`.
pub fn extend(out: &mut Vec<u8>, b: &[u8])
    ensures
        final(out)@ == old(out)@ + b@,
{
    let mut i: usize = 0;
    while i < b.len()
        invariant
            0 <= i <= b@.len(),
            out@ == old(out)@ + b@.subrange(0, i as int),
        decreases b@.len() - i,
    {
        out.push(b[i]);
        i = i + 1;
        assert(out@ =~= old(out)@ + b@.subrange(0, i as int));
    }
    assert(b@.subrange(0, b@.len() as int) =~= b@);
}

/// A copy of `s` without one trailing line feed, where it ends with one.
pub fn trim_line(s: &[u8]) -> (r: Vec<u8>)
    ensures
        r@ == line_of(s@),
{
    let mut r = vstd::slice::slice_to_vec(s);
    if r.len() > 0 && r[r.len() - 1] == NEWLINE {
        r.pop();
        assert(r@ =~= s@.drop_last());
    }
    r
}

/// The decimal digits of `n`, most significant first.
pub open spec fn decimal(n: nat) -> Seq<u8>
    decreases n,
{
    if n < 10 {
        seq![(48 + n) as u8]
    } else {
        decimal(n / 10).push((48 + n % 10) as u8)
    }
}

/// The decimal digits of `n` as text bytes.
pub fn decimal_text(n: usize) -> (r: Vec<u8>)
    ensures
        r@ == decimal(n as nat),
    decreases n,
{
    if n < 10 {
        let mut r: Vec<u8> = Vec::new();
        r.push(48 + n as u8);
        assert(r@ =~= decimal(n as nat));
        r
    } else {
        let mut r = decimal_text(n / 10);
        r.push(48 + (n % 10) as u8);
        r
    }
}

} // verus!
