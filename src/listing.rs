//! Bounded listing of directory entry names.
use vstd::prelude::*;
use vstd::relations::sorted_by;
use vstd::seq_lib::lemma_sorted_unique;
use vstd::std_specs::iter::IteratorSpec;
use vstd::string::StringExecFns;

verus! {

/// How many readable entries a listing considers, at most.
pub const ENTRY_LIMIT: usize = 100;

/// How many names a listing returns, at most.
pub const LISTING_LIMIT: usize = 32;

/// Lexicographic order on names, character by character, comparing
/// characters by their code points. A proper prefix precedes the longer name.
pub open spec fn name_leq(a: Seq<char>, b: Seq<char>) -> bool
    decreases a.len(),
{
    if a.len() == 0 {
        true
    } else if b.len() == 0 {
        false
    } else if a[0] != b[0] {
        a[0] < b[0]
    } else {
        name_leq(a.drop_first(), b.drop_first())
    }
}

/// `name_leq` as a relation, in the form that vstd's ordering tools take.
pub open spec fn name_order() -> spec_fn(Seq<char>, Seq<char>) -> bool {
    |a: Seq<char>, b: Seq<char>| name_leq(a, b)
}

proof fn lemma_name_leq_reflexive(a: Seq<char>)
    ensures
        name_leq(a, a),
    decreases a.len(),
{
    if a.len() > 0 {
        lemma_name_leq_reflexive(a.drop_first());
    }
}

proof fn lemma_name_leq_antisymmetric(a: Seq<char>, b: Seq<char>)
    requires
        name_leq(a, b),
        name_leq(b, a),
    ensures
        a == b,
    decreases a.len(),
{
    if a.len() > 0 && b.len() > 0 {
        lemma_name_leq_antisymmetric(a.drop_first(), b.drop_first());
        assert(a =~= seq![a[0]] + a.drop_first());
        assert(b =~= seq![b[0]] + b.drop_first());
    }
}

proof fn lemma_name_leq_transitive(a: Seq<char>, b: Seq<char>, c: Seq<char>)
    requires
        name_leq(a, b),
        name_leq(b, c),
    ensures
        name_leq(a, c),
    decreases a.len(),
{
    if a.len() > 0 && b.len() > 0 && c.len() > 0 {
        if a[0] == b[0] && b[0] == c[0] {
            lemma_name_leq_transitive(a.drop_first(), b.drop_first(), c.drop_first());
        }
    }
}

proof fn lemma_name_leq_connected(a: Seq<char>, b: Seq<char>)
    ensures
        name_leq(a, b) || name_leq(b, a),
    decreases a.len(),
{
    if a.len() > 0 && b.len() > 0 && a[0] == b[0] {
        lemma_name_leq_connected(a.drop_first(), b.drop_first());
    }
}

/// The name order is a total order.
pub proof fn lemma_name_order_total()
    ensures
        vstd::relations::total_ordering(name_order()),
{
    assert forall|a: Seq<char>| #[trigger] name_order()(a, a) by {
        lemma_name_leq_reflexive(a);
    }
    assert forall|a: Seq<char>, b: Seq<char>|
        #[trigger] name_order()(a, b) && #[trigger] name_order()(b, a) implies a == b by {
        lemma_name_leq_antisymmetric(a, b);
    }
    assert forall|a: Seq<char>, b: Seq<char>, c: Seq<char>|
        #[trigger] name_order()(a, b) && #[trigger] name_order()(b, c) implies name_order()(
        a,
        c,
    ) by {
        lemma_name_leq_transitive(a, b, c);
    }
    assert forall|a: Seq<char>, b: Seq<char>|
        #[trigger] name_order()(a, b) || #[trigger] name_order()(b, a) by {
        lemma_name_leq_connected(a, b);
    }
}

/// Whether `a` sorts no later than `b`.
pub fn name_precedes(a: &str, b: &str) -> (r: bool)
    ensures
        r == name_leq(a@, b@),
{
    let mut rest_a = a.chars();
    let mut rest_b = b.chars();
    let ghost mut k: int = 0;
    loop
        invariant
            0 <= k <= a@.len(),
            k <= b@.len(),
            rest_a.remaining() == a@.skip(k),
            rest_b.remaining() == b@.skip(k),
            name_leq(a@, b@) == name_leq(a@.skip(k), b@.skip(k)),
        decreases a@.len() - k,
    {
        let next_a = rest_a.next();
        let next_b = rest_b.next();
        match next_a {
            None => {
                return true;
            },
            Some(ca) => match next_b {
                None => {
                    return false;
                },
                Some(cb) => {
                    if ca != cb {
                        return ca < cb;
                    }
                    proof {
                        assert(a@.skip(k).drop_first() =~= a@.skip(k + 1));
                        assert(b@.skip(k).drop_first() =~= b@.skip(k + 1));
                        k = k + 1;
                    }
                },
            },
        }
    }
}

/// The first `n` elements of `s`, or all of them when there are fewer.
pub open spec fn leading(s: Seq<Seq<char>>, n: nat) -> Seq<Seq<char>> {
    if s.len() <= n {
        s
    } else {
        s.take(n as int)
    }
}

/// The names `considered`, sorted by the name order and cut to `LISTING_LIMIT`.
pub open spec fn sorted_listing(considered: Seq<Seq<char>>) -> Seq<Seq<char>> {
    leading(considered.sort_by(name_order()), LISTING_LIMIT as nat)
}

/// The names of the entries that could be read (`Some`), in the order read.
pub open spec fn readable_names(entries: Seq<Option<Seq<char>>>) -> Seq<Seq<char>>
    decreases entries.len(),
{
    if entries.len() == 0 {
        seq![]
    } else {
        let before = readable_names(entries.drop_last());
        match entries.last() {
            Some(name) => before.push(name),
            None => before,
        }
    }
}

/// The names a listing of `entries` chooses from: the first `ENTRY_LIMIT`
/// readable names.
pub open spec fn considered_names(entries: Seq<Option<Seq<char>>>) -> Seq<Seq<char>> {
    leading(readable_names(entries), ENTRY_LIMIT as nat)
}

/// The listing of a directory whose entries read as `entries`, in order: the
/// names considered, sorted, cut to `LISTING_LIMIT`.
pub open spec fn bounded_listing(entries: Seq<Option<Seq<char>>>) -> Seq<Seq<char>> {
    sorted_listing(considered_names(entries))
}

/// Gathers entry names as a directory is read, keeping them sorted, and
/// stops taking names once `ENTRY_LIMIT` of them are in.
pub struct NameCollector {
    names: Vec<String>,
    taken: Ghost<Seq<Seq<char>>>,
}

impl View for NameCollector {
    type V = Seq<Seq<char>>;

    /// The names taken so far, in the order they were offered.
    closed spec fn view(&self) -> Seq<Seq<char>> {
        self.taken@
    }
}

impl NameCollector {
    /// The names held are the names taken, sorted, and there are at most
    /// `ENTRY_LIMIT` of them.
    pub closed spec fn wf(&self) -> bool {
        &&& self.taken@.len() <= ENTRY_LIMIT
        &&& self.names@.len() == self.taken@.len()
        &&& sorted_by(self.names.deep_view(), name_order())
        &&& self.names.deep_view().to_multiset() == self.taken@.to_multiset()
    }

    pub fn new() -> (c: Self)
        ensures
            c.wf(),
            c@ == Seq::<Seq<char>>::empty(),
    {
        let c = NameCollector { names: Vec::new(), taken: Ghost(Seq::empty()) };
        proof {
            assert(c.names.deep_view() =~= Seq::<Seq<char>>::empty());
        }
        c
    }

    /// Whether the collector has taken all the names it will take.
    pub fn is_full(&self) -> (r: bool)
        requires
            self.wf(),
        ensures
            r == (self@.len() >= ENTRY_LIMIT),
    {
        self.names.len() >= ENTRY_LIMIT
    }

    /// The first position whose name sorts after `name`, or the length.
    fn insertion_point(&self, name: &String) -> (pos: usize)
        requires
            self.wf(),
        ensures
            pos <= self.names@.len(),
            forall|k: int| 0 <= k < pos ==> name_leq(#[trigger] self.names.deep_view()[k], name@),
            pos < self.names@.len() ==> !name_leq(self.names.deep_view()[pos as int], name@),
    {
        let mut i: usize = 0;
        while i < self.names.len() && name_precedes(self.names[i].as_str(), name.as_str())
            invariant
                i <= self.names@.len(),
                forall|k: int|
                    0 <= k < i ==> name_leq(#[trigger] self.names.deep_view()[k], name@),
            decreases self.names@.len() - i,
        {
            i = i + 1;
        }
        i
    }

    /// Offers the next entry of the directory: `Some` with its name, or
    /// `None` where the entry could not be read, which is skipped. The name
    /// is taken while fewer than `ENTRY_LIMIT` are in. Returns whether the
    /// collector takes more names.
    pub fn offer(&mut self, entry: Option<String>) -> (more: bool)
        requires
            old(self).wf(),
        ensures
            final(self).wf(),
            final(self)@ == (if entry is Some && old(self)@.len() < ENTRY_LIMIT {
                old(self)@.push(entry->0@)
            } else {
                old(self)@
            }),
            more == (final(self)@.len() < ENTRY_LIMIT),
    {
        if self.names.len() >= ENTRY_LIMIT {
            return false;
        }
        match entry {
            None => {},
            Some(name) => {
                let pos = self.insertion_point(&name);
                let ghost before = self.names.deep_view();
                let ghost added = name@;
                self.names.insert(pos, name);
                proof {
                    lemma_name_order_total();
                    let after = self.names.deep_view();
                    assert(after =~= before.insert(pos as int, added));
                    assert forall|i: int, j: int| 0 <= i < j < after.len() implies #[trigger] name_order()(
                        after[i],
                        after[j],
                    ) by {
                        if j < pos {
                        } else if j == pos {
                        } else if i < pos {
                            assert(name_leq(before[i], added));
                            lemma_name_leq_connected(before[pos as int], added);
                            assert(name_leq(added, before[pos as int]));
                            if j - 1 > pos {
                                assert(name_order()(before[pos as int], before[j - 1]));
                            }
                            lemma_name_leq_transitive(before[i], added, before[pos as int]);
                            assert(name_order()(before[i], before[j - 1]));
                        } else if i == pos {
                            lemma_name_leq_connected(before[pos as int], added);
                            if j - 1 > pos {
                                assert(name_order()(before[pos as int], before[j - 1]));
                                lemma_name_leq_transitive(added, before[pos as int], before[j - 1]);
                            }
                        } else {
                            assert(name_order()(before[i - 1], before[j - 1]));
                        }
                    }
                    vstd::seq_lib::to_multiset_insert(before, pos as int, added);
                    vstd::seq_lib::to_multiset_build(self.taken@, added);
                    self.taken = Ghost(self.taken@.push(added));
                }
            },
        }
        self.names.len() < ENTRY_LIMIT
    }

    /// The listing of the names taken: sorted, cut to `LISTING_LIMIT`.
    pub fn finish(self) -> (r: Vec<String>)
        requires
            self.wf(),
        ensures
            r.deep_view() == sorted_listing(self@),
    {
        let ghost held = self.names.deep_view();
        let mut names = self.names;
        names.truncate(LISTING_LIMIT);
        proof {
            lemma_name_order_total();
            self.taken@.lemma_sort_by_ensures(name_order());
            lemma_sorted_unique(held, self.taken@.sort_by(name_order()), name_order());
            assert(names.deep_view() =~= leading(held, LISTING_LIMIT as nat));
        }
        names
    }
}

/// Reading more entries only adds names after those already read.
proof fn lemma_readable_prefix(entries: Seq<Option<Seq<char>>>, i: int, j: int)
    requires
        0 <= i <= j <= entries.len(),
    ensures
        readable_names(entries.take(i)).len() <= readable_names(entries.take(j)).len(),
        readable_names(entries.take(j)).take(readable_names(entries.take(i)).len() as int)
            == readable_names(entries.take(i)),
    decreases j - i,
{
    if i < j {
        lemma_readable_prefix(entries, i, j - 1);
        assert(entries.take(j).drop_last() =~= entries.take(j - 1));
        let short = readable_names(entries.take(i));
        let mid = readable_names(entries.take(j - 1));
        let long = readable_names(entries.take(j));
        assert(long.take(short.len() as int) =~= mid.take(short.len() as int));
    } else {
        let r = readable_names(entries.take(i));
        assert(r.take(r.len() as int) =~= r);
    }
}

/// The listing of a directory whose entries read as `entries`, in order:
/// unreadable entries are skipped, only the first `ENTRY_LIMIT` readable
/// names are considered, and of those the result holds the first
/// `LISTING_LIMIT` in sorted order.
pub fn list_entries(entries: Vec<Option<String>>) -> (r: Vec<String>)
    ensures
        r.deep_view() == bounded_listing(entries.deep_view()),
{
    let ghost all = entries.deep_view();
    let mut collector = NameCollector::new();
    let mut i: usize = 0;
    proof {
        assert(all.take(0) =~= Seq::<Option<Seq<char>>>::empty());
    }
    while i < entries.len() && !collector.is_full()
        invariant
            i <= entries@.len(),
            all == entries.deep_view(),
            collector.wf(),
            collector@ == leading(readable_names(all.take(i as int)), ENTRY_LIMIT as nat),
        decreases entries@.len() - i,
    {
        let entry = match &entries[i] {
            Some(name) => Some(name.clone()),
            None => None,
        };
        proof {
            assert(all.take(i + 1).drop_last() =~= all.take(i as int));
        }
        collector.offer(entry);
        i = i + 1;
    }
    proof {
        lemma_readable_prefix(all, i as int, all.len() as int);
        assert(all.take(all.len() as int) =~= all);
        let part = readable_names(all.take(i as int));
        let whole = readable_names(all);
        if i < all.len() {
            assert(leading(whole, ENTRY_LIMIT as nat) =~= leading(part, ENTRY_LIMIT as nat));
        }
    }
    collector.finish()
}

/// A listing never holds more than `LISTING_LIMIT` names.
pub proof fn lemma_listing_bounded(entries: Seq<Option<Seq<char>>>)
    ensures
        bounded_listing(entries).len() <= LISTING_LIMIT,
{
}

/// A listing is sorted by the name order, and holds no name more often than
/// the directory reported it among the names considered. Where no more than
/// `LISTING_LIMIT` names are considered, the listing holds each of them
/// exactly as often as the directory reported it: nothing is merged away.
pub proof fn lemma_listing_sorted_as_reported(entries: Seq<Option<Seq<char>>>)
    ensures
        sorted_by(bounded_listing(entries), name_order()),
        bounded_listing(entries).to_multiset().subset_of(considered_names(entries).to_multiset()),
        considered_names(entries).len() <= LISTING_LIMIT ==> bounded_listing(entries).to_multiset()
            == considered_names(entries).to_multiset(),
{
    let considered = considered_names(entries);
    let sorted = considered.sort_by(name_order());
    lemma_name_order_total();
    considered.lemma_sort_by_ensures(name_order());
    vstd::seq_lib::to_multiset_len(considered);
    vstd::seq_lib::to_multiset_len(sorted);
    if sorted.len() > LISTING_LIMIT {
        let k = LISTING_LIMIT as int;
        assert(sorted =~= sorted.take(k) + sorted.skip(k));
        vstd::seq_lib::lemma_multiset_commutative(sorted.take(k), sorted.skip(k));
    }
}

/// A listing holds `LISTING_LIMIT` names whenever at least that many are
/// considered, and it holds the smallest of them: a considered name that
/// sorts strictly before some name of the listing is in the listing too.
pub proof fn lemma_listing_holds_smallest(entries: Seq<Option<Seq<char>>>)
    ensures
        considered_names(entries).len() >= LISTING_LIMIT ==> bounded_listing(entries).len()
            == LISTING_LIMIT,
        forall|x: Seq<char>, i: int|
            #![trigger considered_names(entries).contains(x), bounded_listing(entries)[i]]
            considered_names(entries).contains(x) && 0 <= i < bounded_listing(entries).len()
                && !name_leq(bounded_listing(entries)[i], x) ==> bounded_listing(
                entries,
            ).contains(x),
{
    let considered = considered_names(entries);
    let sorted = considered.sort_by(name_order());
    let listing = bounded_listing(entries);
    lemma_name_order_total();
    considered.lemma_sort_by_ensures(name_order());
    vstd::seq_lib::to_multiset_len(considered);
    vstd::seq_lib::to_multiset_len(sorted);
    assert forall|x: Seq<char>, i: int|
        considered.contains(x) && 0 <= i < listing.len() && !name_leq(
            listing[i],
            x,
        ) implies listing.contains(x) by {
        vstd::seq_lib::to_multiset_contains(considered, x);
        vstd::seq_lib::to_multiset_contains(sorted, x);
        let m = choose|m: int| 0 <= m < sorted.len() && sorted[m] == x;
        assert(listing[i] == sorted[i]);
        if m >= listing.len() {
            assert(name_order()(sorted[i], sorted[m]));
        } else {
            assert(listing[m] == x);
        }
    }
}

/// Why a listing could not be made.
#[derive(Debug)]
pub enum ListError {
    /// The home directory could not be located.
    HomeUnavailable,
    /// The directory at `path` could not be read, for `cause`.
    ReadFailed { path: String, cause: String },
}

impl ListError {
    /// The message that reports the error to the caller.
    pub open spec fn spec_message(&self) -> Seq<char> {
        match self {
            ListError::HomeUnavailable => "Unable to locate home directory"@,
            ListError::ReadFailed { path, cause } => "Failed to read "@ + path@ + ": "@ + cause@,
        }
    }

    pub fn message(&self) -> (m: String)
        ensures
            m@ == self.spec_message(),
    {
        match self {
            ListError::HomeUnavailable => String::from_str("Unable to locate home directory"),
            ListError::ReadFailed { path, cause } => {
                let mut m = String::from_str("Failed to read ");
                m.append(path.as_str());
                m.append(": ");
                m.append(cause.as_str());
                m
            },
        }
    }
}

} // verus!
