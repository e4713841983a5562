//! Algorithm proposals: comma-separated lists of algorithm tags, most
//! preferred first, and the rule by which two peers settle on one entry.

use vstd::prelude::*;
use std::cmp::Ordering;
use crate::secio::error::SecioError;
use crate::secio::exchange::KeyAgreement;
use crate::secio::stream_cipher::Cipher;
use crate::secio::Digest;
use crate::text::{chars_equal, to_chars};

verus! {

/// Key agreements proposed when the configuration names none. An entry
/// that names no member of `KeyAgreement`, as `P-521` does, is proposed
/// and never selected.
pub const DEFAULT_AGREEMENTS_PROPOSITION: &'static str = "P-256,P-384,P-521,X25519";

/// Ciphers proposed when the configuration names none.
pub const DEFAULT_CIPHERS_PROPOSITION: &'static str = "AES-128,AES-256,TwofishCTR";

/// Digests proposed when the configuration names none.
pub const DEFAULT_DIGESTS_PROPOSITION: &'static str = "SHA256,SHA512";

/// How the digest of (remote key, local nonce) compares with the digest of
/// (local key, remote nonce). The two peers of one handshake see opposite
/// values, which breaks the symmetry between them.
#[derive(Debug, Clone, Copy, PartialEq, Eq, Structural)]
pub enum HashOrder {
    Less,
    Equal,
    Greater,
}

/// Lexicographic comparison of two byte strings.
pub open spec fn lex_order(a: Seq<u8>, b: Seq<u8>) -> HashOrder
    decreases a.len(),
{
    if a.len() == 0 {
        if b.len() == 0 {
            HashOrder::Equal
        } else {
            HashOrder::Less
        }
    } else if b.len() == 0 {
        HashOrder::Greater
    } else if a[0] < b[0] {
        HashOrder::Less
    } else if a[0] > b[0] {
        HashOrder::Greater
    } else {
        lex_order(a.drop_first(), b.drop_first())
    }
}

impl HashOrder {
    /// The value that the other peer sees.
    pub open spec fn spec_reverse(self) -> HashOrder {
        match self {
            HashOrder::Less => HashOrder::Greater,
            HashOrder::Equal => HashOrder::Equal,
            HashOrder::Greater => HashOrder::Less,
        }
    }

    /// The value that the other peer sees.
    pub fn reverse(self) -> (r: HashOrder)
        ensures
            r == self.spec_reverse(),
    {
        match self {
            HashOrder::Less => HashOrder::Greater,
            HashOrder::Equal => HashOrder::Equal,
            HashOrder::Greater => HashOrder::Less,
        }
    }

    /// The same outcome in the standard library's type.
    pub fn to_std(self) -> (r: Ordering)
        ensures
            r == match self {
                HashOrder::Less => Ordering::Less,
                HashOrder::Equal => Ordering::Equal,
                HashOrder::Greater => Ordering::Greater,
            },
    {
        match self {
            HashOrder::Less => Ordering::Less,
            HashOrder::Equal => Ordering::Equal,
            HashOrder::Greater => Ordering::Greater,
        }
    }

    /// The outcome that the standard library's value stands for.
    pub fn from_std(order: Ordering) -> (r: HashOrder)
        ensures
            r == match order {
                Ordering::Less => HashOrder::Less,
                Ordering::Equal => HashOrder::Equal,
                Ordering::Greater => HashOrder::Greater,
            },
    {
        match order {
            Ordering::Less => HashOrder::Less,
            Ordering::Equal => HashOrder::Equal,
            Ordering::Greater => HashOrder::Greater,
        }
    }

    /// Compares `a` with `b` byte by byte; a proper prefix comes first.
    pub fn of(a: &[u8], b: &[u8]) -> (r: HashOrder)
        ensures
            r == lex_order(a@, b@),
    {
        let mut i: usize = 0;
        assert(a@.skip(0) == a@ && b@.skip(0) == b@);
        while i < a.len() && i < b.len()
            invariant
                i <= a.len(),
                i <= b.len(),
                lex_order(a@, b@) == lex_order(a@.skip(i as int), b@.skip(i as int)),
            decreases a.len() - i,
        {
            proof {
                assert(a@.skip(i as int).drop_first() == a@.skip(i + 1));
                assert(b@.skip(i as int).drop_first() == b@.skip(i + 1));
            }
            if a[i] < b[i] {
                return HashOrder::Less;
            }
            if a[i] > b[i] {
                return HashOrder::Greater;
            }
            i += 1;
        }
        if i < b.len() {
            HashOrder::Less
        } else if i < a.len() {
            HashOrder::Greater
        } else {
            HashOrder::Equal
        }
    }
}

/// Swapping the two byte strings reverses the outcome.
pub proof fn lemma_lex_order_reverse(a: Seq<u8>, b: Seq<u8>)
    ensures
        lex_order(b, a) == lex_order(a, b).spec_reverse(),
    decreases a.len(),
{
    if a.len() > 0 && b.len() > 0 && a[0] == b[0] {
        lemma_lex_order_reverse(a.drop_first(), b.drop_first());
    }
}

/// Whether `a` comes before `b` or is `b`.
pub open spec fn lex_le(a: Seq<u8>, b: Seq<u8>) -> bool {
    lex_order(a, b) != HashOrder::Greater
}

/// The order is transitive.
pub proof fn lemma_lex_le_transitive(a: Seq<u8>, b: Seq<u8>, c: Seq<u8>)
    requires
        lex_le(a, b),
        lex_le(b, c),
    ensures
        lex_le(a, c),
    decreases a.len(),
{
    if a.len() > 0 && b.len() > 0 && c.len() > 0 && a[0] == b[0] && b[0] == c[0] {
        lemma_lex_le_transitive(a.drop_first(), b.drop_first(), c.drop_first());
    }
}

/// Two byte strings compare equal exactly when they are the same string.
pub proof fn lemma_lex_order_equal(a: Seq<u8>, b: Seq<u8>)
    ensures
        lex_order(a, b) == HashOrder::Equal <==> a == b,
    decreases a.len(),
{
    if a.len() > 0 && b.len() > 0 && a[0] == b[0] {
        lemma_lex_order_equal(a.drop_first(), b.drop_first());
        if a.drop_first() == b.drop_first() {
            assert(a =~= seq![a[0]] + a.drop_first());
            assert(b =~= seq![b[0]] + b.drop_first());
        }
    } else if a.len() == 0 && b.len() == 0 {
        assert(a =~= b);
    }
}

/// The entries of a comma-separated list. A list without a comma has one
/// entry, which is the whole text (the empty text too); each comma ends one
/// entry and starts the next.
pub open spec fn split(s: Seq<char>) -> Seq<Seq<char>>
    decreases s.len(),
{
    if s.len() == 0 {
        seq![Seq::<char>::empty()]
    } else {
        let before = split(s.drop_last());
        if s.last() == ',' {
            before.push(Seq::<char>::empty())
        } else {
            before.drop_last().push(before.last().push(s.last()))
        }
    }
}

/// The entries with a comma between each two of them.
pub open spec fn join(entries: Seq<Seq<char>>) -> Seq<char>
    decreases entries.len(),
{
    if entries.len() == 0 {
        Seq::empty()
    } else if entries.len() == 1 {
        entries[0]
    } else {
        join(entries.drop_last()).push(',') + entries.last()
    }
}

/// Splitting undoes joining: a list has at least one entry, no entry
/// holds a comma, and the entries joined by commas are the list.
pub proof fn lemma_split_join(s: Seq<char>)
    ensures
        split(s).len() >= 1,
        forall|i: int| 0 <= i < split(s).len() ==> !(#[trigger] split(s)[i]).contains(','),
        join(split(s)) == s,
    decreases s.len(),
{
    if s.len() == 0 {
        assert(join(split(s)) == s);
    } else {
        let t = s.drop_last();
        let c = s.last();
        let before = split(t);
        lemma_split_join(t);
        assert(t.push(c) == s);
        if c == ',' {
            let after = before.push(Seq::<char>::empty());
            assert(after.drop_last() == before);
            assert(join(after) == join(before).push(',') + Seq::<char>::empty());
            assert(join(before).push(',') + Seq::<char>::empty() == t.push(','));
        } else {
            let last = before.last().push(c);
            let after = before.drop_last().push(last);
            assert forall|i: int| 0 <= i < after.len() implies !(#[trigger] after[i]).contains(
                ',',
            ) by {
                if i == after.len() - 1 {
                    assert(!before.last().contains(','));
                    assert(before[before.len() - 1] == before.last());
                    if last.contains(',') {
                        let k = choose|k: int| 0 <= k < last.len() && last[k] == ',';
                        if k < before.last().len() {
                            assert(before.last()[k] == ',');
                        }
                    }
                } else {
                    assert(after[i] == before[i]);
                }
            }
            if before.len() == 1 {
                assert(join(after) == last);
                assert(join(before) == before[0]);
            } else {
                assert(after.drop_last() == before.drop_last());
                assert(join(after) == join(before.drop_last()).push(',') + last);
                assert(join(before.drop_last()).push(',') + last == (join(
                    before.drop_last(),
                ).push(',') + before.last()).push(c));
            }
        }
    }
}

/// The entries of a vector of tags, each as a sequence of characters.
pub open spec fn tags_view(tags: Seq<Vec<char>>) -> Seq<Seq<char>> {
    tags.map_values(|t: Vec<char>| t@)
}

/// Splits a comma-separated list into its entries.
pub fn split_tags(s: &str) -> (tags: Vec<Vec<char>>)
    ensures
        tags_view(tags@) == split(s@),
{
    let chars = to_chars(s);
    let mut done: Vec<Vec<char>> = Vec::new();
    let mut current: Vec<char> = Vec::new();
    let mut i: usize = 0;
    while i < chars.len()
        invariant
            i <= chars.len(),
            tags_view(done@).push(current@) == split(chars@.take(i as int)),
        decreases chars.len() - i,
    {
        let c = chars[i];
        proof {
            assert(chars@.take(i + 1).drop_last() == chars@.take(i as int));
            assert(chars@.take(i + 1).last() == c);
            assert(tags_view(done@).push(current@).drop_last() == tags_view(done@));
        }
        if c == ',' {
            let ghost before = done@;
            done.push(current);
            current = Vec::new();
            assert(tags_view(done@) == tags_view(before).push(done@.last()@));
        } else {
            current.push(c);
        }
        i += 1;
    }
    assert(chars@.take(chars.len() as int) == chars@);
    let ghost before = done@;
    done.push(current);
    assert(tags_view(done@) == tags_view(before).push(done@.last()@));
    done
}

/// A family of algorithms whose members are proposed by tag.
pub trait Algorithm: Sized {
    /// The algorithm that `tag` names, if it names one of this family.
    spec fn of_tag(tag: Seq<char>) -> Option<Self>;

    /// The algorithm that `tag` names, if it names one of this family.
    fn parse(tag: &Vec<char>) -> (r: Option<Self>)
        ensures
            r == Self::of_tag(tag@),
    ;
}

/// Whether `tag` can be selected: the other side lists it too, and it names
/// an algorithm of the family.
pub open spec fn eligible<A: Algorithm>(tag: Seq<char>, other: Seq<Seq<char>>) -> bool {
    other.contains(tag) && A::of_tag(tag) is Some
}

/// The algorithm named by the first entry of `preferred` that is eligible
/// against `other`, if there is one.
pub open spec fn first_match<A: Algorithm>(
    preferred: Seq<Seq<char>>,
    other: Seq<Seq<char>>,
) -> Option<A>
    decreases preferred.len(),
{
    if preferred.len() == 0 {
        None
    } else if eligible::<A>(preferred[0], other) {
        A::of_tag(preferred[0])
    } else {
        first_match::<A>(preferred.drop_first(), other)
    }
}

/// The selection rule. The side whose order is `Less` prefers the remote's
/// list, every other side its own; the result is the first eligible entry
/// of the preferred list.
pub open spec fn spec_select<A: Algorithm>(
    order: HashOrder,
    ours: Seq<char>,
    theirs: Seq<char>,
) -> Result<A, SecioError> {
    let found = match order {
        HashOrder::Less => first_match::<A>(split(theirs), split(ours)),
        HashOrder::Equal | HashOrder::Greater => first_match::<A>(split(ours), split(theirs)),
    };
    match found {
        Some(a) => Ok(a),
        None => Err(SecioError::NoSupportIntersection),
    }
}

/// `first_match` finds the eligible entry of least index, and finds nothing
/// only when no entry is eligible.
pub proof fn lemma_first_match<A: Algorithm>(preferred: Seq<Seq<char>>, other: Seq<Seq<char>>)
    ensures
        match first_match::<A>(preferred, other) {
            Some(a) => exists|i: int|
                0 <= i < preferred.len() && #[trigger] eligible::<A>(preferred[i], other)
                    && A::of_tag(preferred[i]) == Some(a) && forall|j: int|
                    0 <= j < i ==> !#[trigger] eligible::<A>(preferred[j], other),
            None => forall|i: int|
                0 <= i < preferred.len() ==> !#[trigger] eligible::<A>(preferred[i], other),
        },
    decreases preferred.len(),
{
    if preferred.len() == 0 {
    } else if eligible::<A>(preferred[0], other) {
        assert(eligible::<A>(preferred[0], other));
    } else {
        let rest = preferred.drop_first();
        lemma_first_match::<A>(rest, other);
        match first_match::<A>(rest, other) {
            Some(a) => {
                let i = choose|i: int|
                    0 <= i < rest.len() && #[trigger] eligible::<A>(rest[i], other) && A::of_tag(
                        rest[i],
                    ) == Some(a) && forall|j: int|
                        0 <= j < i ==> !#[trigger] eligible::<A>(rest[j], other);
                assert(eligible::<A>(preferred[i + 1], other));
                assert forall|j: int| 0 <= j < i + 1 implies !#[trigger] eligible::<A>(
                    preferred[j],
                    other,
                ) by {
                    if j > 0 {
                        assert(!eligible::<A>(rest[j - 1], other));
                    }
                }
            },
            None => {
                assert forall|i: int| 0 <= i < preferred.len() implies !#[trigger] eligible::<A>(
                    preferred[i],
                    other,
                ) by {
                    if i > 0 {
                        assert(!eligible::<A>(rest[i - 1], other));
                    }
                }
            },
        }
    }
}

/// Two peers that hold each other's lists and see opposite orders select
/// the same algorithm, or both find none.
pub proof fn lemma_select_converges<A: Algorithm>(
    order: HashOrder,
    ours: Seq<char>,
    theirs: Seq<char>,
)
    requires
        order != HashOrder::Equal,
    ensures
        spec_select::<A>(order, ours, theirs) == spec_select::<A>(
            order.spec_reverse(),
            theirs,
            ours,
        ),
{
}

/// Whether both lists hold `tag` and it names an algorithm of the family.
pub open spec fn common<A: Algorithm>(tag: Seq<char>, ours: Seq<char>, theirs: Seq<char>) -> bool {
    split(ours).contains(tag) && split(theirs).contains(tag) && A::of_tag(tag) is Some
}

/// Whether the two lists have a supported entry in common.
pub open spec fn overlap<A: Algorithm>(ours: Seq<char>, theirs: Seq<char>) -> bool {
    exists|tag: Seq<char>| #[trigger] common::<A>(tag, ours, theirs)
}

/// Which list comes first makes no difference to whether the two overlap.
pub proof fn lemma_overlap_symmetric<A: Algorithm>(ours: Seq<char>, theirs: Seq<char>)
    ensures
        overlap::<A>(ours, theirs) == overlap::<A>(theirs, ours),
{
    if overlap::<A>(ours, theirs) {
        let tag = choose|tag: Seq<char>| #[trigger] common::<A>(tag, ours, theirs);
        assert(common::<A>(tag, theirs, ours));
    }
    if overlap::<A>(theirs, ours) {
        let tag = choose|tag: Seq<char>| #[trigger] common::<A>(tag, theirs, ours);
        assert(common::<A>(tag, ours, theirs));
    }
}

/// The selection succeeds exactly when the two lists have a supported
/// entry in common, whatever the order; what it selects is such an entry;
/// and when it fails, it fails with `NoSupportIntersection`.
pub proof fn lemma_select_outcome<A: Algorithm>(order: HashOrder, ours: Seq<char>, theirs: Seq<char>)
    ensures
        spec_select::<A>(order, ours, theirs) is Ok <==> overlap::<A>(ours, theirs),
        spec_select::<A>(order, ours, theirs) matches Ok(a) ==> exists|tag: Seq<char>|
            #[trigger] common::<A>(tag, ours, theirs) && A::of_tag(tag) == Some(a),
        spec_select::<A>(order, ours, theirs) is Err ==> spec_select::<A>(order, ours, theirs)
            == Err::<A, SecioError>(SecioError::NoSupportIntersection),
{
    let (preferred, other) = if order == HashOrder::Less {
        (split(theirs), split(ours))
    } else {
        (split(ours), split(theirs))
    };
    lemma_first_match::<A>(preferred, other);
    match first_match::<A>(preferred, other) {
        Some(a) => {
            let i = choose|i: int|
                0 <= i < preferred.len() && #[trigger] eligible::<A>(preferred[i], other)
                    && A::of_tag(preferred[i]) == Some(a) && forall|j: int|
                    0 <= j < i ==> !#[trigger] eligible::<A>(preferred[j], other);
            assert(preferred.contains(preferred[i]));
            assert(common::<A>(preferred[i], ours, theirs));
        },
        None => {
            if overlap::<A>(ours, theirs) {
                let tag = choose|tag: Seq<char>| #[trigger] common::<A>(tag, ours, theirs);
                let i = choose|i: int| 0 <= i < preferred.len() && preferred[i] == tag;
                assert(eligible::<A>(preferred[i], other));
            }
        },
    }
}

fn contains_tag(tags: &Vec<Vec<char>>, tag: &Vec<char>) -> (found: bool)
    ensures
        found == tags_view(tags@).contains(tag@),
{
    let mut i: usize = 0;
    while i < tags.len()
        invariant
            i <= tags.len(),
            forall|j: int| 0 <= j < i ==> tags_view(tags@)[j] != tag@,
        decreases tags.len() - i,
    {
        if chars_equal(&tags[i], tag) {
            assert(tags_view(tags@)[i as int] == tag@);
            return true;
        }
        i += 1;
    }
    false
}

fn find_first<A: Algorithm>(preferred: &Vec<Vec<char>>, other: &Vec<Vec<char>>) -> (r: Option<A>)
    ensures
        r == first_match::<A>(tags_view(preferred@), tags_view(other@)),
{
    let ghost all = tags_view(preferred@);
    let mut i: usize = 0;
    assert(all.skip(0) == all);
    while i < preferred.len()
        invariant
            i <= preferred.len(),
            all == tags_view(preferred@),
            first_match::<A>(all, tags_view(other@)) == first_match::<A>(
                all.skip(i as int),
                tags_view(other@),
            ),
        decreases preferred.len() - i,
    {
        proof {
            assert(all.skip(i as int).drop_first() == all.skip(i + 1));
            assert(all.skip(i as int)[0] == preferred@[i as int]@);
        }
        if contains_tag(other, &preferred[i]) {
            let parsed = A::parse(&preferred[i]);
            if parsed.is_some() {
                return parsed;
            }
        }
        i += 1;
    }
    None
}

/// Selects one algorithm of the family `A` from two proposals.
pub fn select<A: Algorithm>(order: HashOrder, ours: &str, theirs: &str) -> (r: Result<
    A,
    SecioError,
>)
    ensures
        r == spec_select::<A>(order, ours@, theirs@),
{
    let ours_tags = split_tags(ours);
    let theirs_tags = split_tags(theirs);
    let found = match order {
        HashOrder::Less => find_first::<A>(&theirs_tags, &ours_tags),
        HashOrder::Equal | HashOrder::Greater => find_first::<A>(&ours_tags, &theirs_tags),
    };
    match found {
        Some(a) => Ok(a),
        None => Err(SecioError::NoSupportIntersection),
    }
}

/// Selects the key agreement from two proposals.
pub fn select_agreement(order: HashOrder, ours: &str, theirs: &str) -> (r: Result<
    KeyAgreement,
    SecioError,
>)
    ensures
        r == spec_select::<KeyAgreement>(order, ours@, theirs@),
{
    select::<KeyAgreement>(order, ours, theirs)
}

/// Selects the cipher from two proposals.
pub fn select_cipher(order: HashOrder, ours: &str, theirs: &str) -> (r: Result<Cipher, SecioError>)
    ensures
        r == spec_select::<Cipher>(order, ours@, theirs@),
{
    select::<Cipher>(order, ours, theirs)
}

/// Selects the digest from two proposals.
pub fn select_digest(order: HashOrder, ours: &str, theirs: &str) -> (r: Result<Digest, SecioError>)
    ensures
        r == spec_select::<Digest>(order, ours@, theirs@),
{
    select::<Digest>(order, ours, theirs)
}

} // verus!
