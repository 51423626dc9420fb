use vstd::prelude::*;
use vstd::utf8::encode_utf8;

use crate::app::SearchMatch;

verus! {

/// Whether `query` stands in `content` at `at`.
pub open spec fn stands_at(content: Seq<u8>, query: Seq<u8>, at: int) -> bool {
    0 <= at <= content.len() - query.len() && content.subrange(at, at + query.len()) == query
}

/// The places from `at` on at which `query` stands in `content`, as one finds them who goes on behind
/// each. An empty query stands nowhere.
pub open spec fn places(content: Seq<u8>, query: Seq<u8>, at: int) -> Seq<int>
    decreases content.len() - at,
{
    if query.len() == 0 || at + query.len() > content.len() {
        Seq::empty()
    } else if stands_at(content, query, at) {
        seq![at] + places(content, query, at + query.len())
    } else {
        places(content, query, at + 1)
    }
}

/// Where one has got to when all the places are found: what follows can stand at no earlier place.
pub open spec fn search_end(content: Seq<u8>, query: Seq<u8>, at: int) -> int
    decreases content.len() - at,
{
    if query.len() == 0 {
        content.len() as int
    } else if at + query.len() > content.len() {
        at
    } else if stands_at(content, query, at) {
        search_end(content, query, at + query.len())
    } else {
        search_end(content, query, at + 1)
    }
}

/// The search goes on where it has stopped when more of the content comes in.
proof fn lemma_search_goes_on(content: Seq<u8>, more: Seq<u8>, query: Seq<u8>, at: int)
    requires
        0 <= at <= content.len(),
    ensures
        at <= search_end(content, query, at) <= content.len(),
        places(content + more, query, at) == places(content, query, at) + places(
            content + more,
            query,
            search_end(content, query, at),
        ),
        search_end(content + more, query, at) == search_end(
            content + more,
            query,
            search_end(content, query, at),
        ),
    decreases content.len() - at,
{
    let whole = content + more;
    if query.len() > 0 && at + query.len() <= content.len() {
        assert(whole.subrange(at, at + query.len()) == content.subrange(at, at + query.len()));
        if stands_at(content, query, at) {
            lemma_search_goes_on(content, more, query, at + query.len());
        } else {
            lemma_search_goes_on(content, more, query, at + 1);
        }
    }
}

/// The query stands at each place, no two of them overlap, and they are told from the front to the back.
pub proof fn law_places_hold_the_query(content: Seq<u8>, query: Seq<u8>, at: int)
    requires
        0 <= at <= content.len(),
    ensures
        ({
            let found = places(content, query, at);
            &&& forall|i: int|
                0 <= i < found.len() ==> at <= #[trigger] found[i] && stands_at(
                    content,
                    query,
                    found[i],
                )
            &&& forall|i: int, j: int|
                0 <= i < j < found.len() ==> #[trigger] found[i] + query.len()
                    <= #[trigger] found[j]
        }),
    decreases content.len() - at,
{
    let found = places(content, query, at);
    if query.len() > 0 && at + query.len() <= content.len() {
        if stands_at(content, query, at) {
            let rest = places(content, query, at + query.len());
            law_places_hold_the_query(content, query, at + query.len());
            assert(found == seq![at] + rest);
            assert forall|i: int| 0 <= i < found.len() implies at <= #[trigger] found[i]
                && stands_at(content, query, found[i]) by {
                if i > 0 {
                    assert(found[i] == rest[i - 1]);
                }
            }
            assert forall|i: int, j: int| 0 <= i < j < found.len() implies #[trigger] found[i]
                + query.len() <= #[trigger] found[j] by {
                assert(found[j] == rest[j - 1]);
                if i > 0 {
                    assert(found[i] == rest[i - 1]);
                }
            }
        } else {
            law_places_hold_the_query(content, query, at + 1);
            assert(found == places(content, query, at + 1));
        }
    }
}

/// Wherever the query stands, there or less than its length in front is one of the places.
pub proof fn law_no_place_is_missed(content: Seq<u8>, query: Seq<u8>, at: int, place: int)
    requires
        0 <= at <= place,
        query.len() > 0,
        stands_at(content, query, place),
    ensures
        ({
            let found = places(content, query, at);
            exists|i: int|
                0 <= i < found.len() && #[trigger] found[i] <= place < found[i] + query.len()
        }),
    decreases content.len() - at,
{
    let found = places(content, query, at);
    if stands_at(content, query, at) {
        let rest = places(content, query, at + query.len());
        assert(found == seq![at] + rest);
        if place < at + query.len() {
            assert(found[0] == at);
        } else {
            law_no_place_is_missed(content, query, at + query.len(), place);
            let i = choose|i: int|
                0 <= i < rest.len() && #[trigger] rest[i] <= place < rest[i] + query.len();
            assert(found[i + 1] == rest[i]);
        }
    } else {
        law_no_place_is_missed(content, query, at + 1, place);
        assert(found == places(content, query, at + 1));
    }
}

/// Looks for a query in the pieces of a file as they come in.
pub struct Searcher {
    query: Vec<u8>,
    from: u64,
    position: u64,
    tail: Vec<u8>,
    matches: u64,
    received: Ghost<Seq<u8>>,
}

/// The offsets of a row of matches.
pub open spec fn match_offsets(matches: Seq<SearchMatch>) -> Seq<int> {
    matches.map_values(|found: SearchMatch| found.offset as int)
}

/// The places of a file, whose bytes from `from` on are the content.
pub open spec fn file_places(content: Seq<u8>, query: Seq<u8>, from: int) -> Seq<int> {
    places(content, query, 0).map_values(|place: int| from + place)
}

/// At every place that is told stand the bytes of the query, one by one, and no two places overlap.
/// `content` are the bytes of the file from `from` on.
pub proof fn law_matches_are_the_query(content: Seq<u8>, query: Seq<u8>, from: int)
    ensures
        ({
            let told = file_places(content, query, from);
            &&& told.len() > 0 ==> query.len() > 0
            &&& forall|i: int|
                0 <= i < told.len() ==> from <= #[trigger] told[i] && told[i] + query.len() <= from
                    + content.len()
            &&& forall|i: int, k: int|
                0 <= i < told.len() && 0 <= k < query.len() ==> content[#[trigger] told[i] - from
                    + k] == #[trigger] query[k]
            &&& forall|i: int, j: int|
                0 <= i < j < told.len() ==> #[trigger] told[i] + query.len() <= #[trigger] told[j]
        }),
{
    let told = file_places(content, query, from);
    let found = places(content, query, 0);
    law_places_hold_the_query(content, query, 0);
    assert forall|i: int| 0 <= i < told.len() implies from <= #[trigger] told[i] && told[i]
        + query.len() <= from + content.len() by {
        assert(stands_at(content, query, found[i]));
    }
    assert forall|i: int, k: int| 0 <= i < told.len() && 0 <= k < query.len() implies content[
    #[trigger] told[i] - from + k] == #[trigger] query[k] by {
        assert(stands_at(content, query, found[i]));
        assert(content.subrange(found[i], found[i] + query.len())[k] == content[found[i] + k]);
    }
    assert forall|i: int, j: int| 0 <= i < j < told.len() implies #[trigger] told[i] + query.len()
        <= #[trigger] told[j] by {
        assert(found[i] + query.len() <= found[j]);
    }
}

/// Wherever the bytes of the query stand, one by one, there is a match, or one that begins in front and
/// reaches over the place.
pub proof fn law_matches_are_all_told(content: Seq<u8>, query: Seq<u8>, from: int, place: int)
    requires
        query.len() > 0,
        0 <= place,
        place + query.len() <= content.len(),
        forall|k: int| 0 <= k < query.len() ==> content[place + k] == #[trigger] query[k],
    ensures
        ({
            let told = file_places(content, query, from);
            exists|i: int|
                0 <= i < told.len() && #[trigger] told[i] <= from + place < told[i] + query.len()
        }),
{
    let told = file_places(content, query, from);
    let found = places(content, query, 0);
    assert(content.subrange(place, place + query.len()) =~= query);
    law_no_place_is_missed(content, query, 0, place);
    let i = choose|i: int|
        0 <= i < found.len() && #[trigger] found[i] <= place < found[i] + query.len();
    assert(told[i] == from + found[i]);
}

/// The matches that are told are where they say that they are.
pub proof fn law_matches_tell_their_offsets(matches: Seq<SearchMatch>)
    ensures
        match_offsets(matches).len() == matches.len(),
        forall|i: int|
            0 <= i < matches.len() ==> match_offsets(matches)[i] == (#[trigger] matches[i]).offset,
{
}

impl Searcher {
    /// All the bytes that were handed over.
    pub closed spec fn received(&self) -> Seq<u8> {
        self.received@
    }

    /// The bytes that are looked for.
    pub closed spec fn query(&self) -> Seq<u8> {
        self.query@
    }

    /// Where the search begins in the file.
    pub closed spec fn from(&self) -> u64 {
        self.from
    }

    /// What holds of every searcher.
    pub closed spec fn well_formed(&self) -> bool {
        let reached = search_end(self.received@, self.query@, 0);
        &&& 0 <= reached <= self.received@.len()
        &&& self.position == self.from + reached
        &&& self.tail@ == self.received@.skip(reached)
        &&& self.matches == places(self.received@, self.query@, 0).len()
        &&& self.matches <= reached
        &&& self.from + self.received@.len() <= u64::MAX
    }

    /// Begins a search for a text from the offset `from` on.
    pub fn new(query: &str, from: u64) -> (searcher: Self)
        ensures
            searcher.well_formed(),
            searcher.query() == encode_utf8(query@),
            searcher.from() == from,
            searcher.received() == Seq::<u8>::empty(),
    {
        let bytes = query.as_bytes();
        let mut wanted: Vec<u8> = Vec::new();
        let mut i: usize = 0;
        while i < bytes.len()
            invariant
                i <= bytes@.len(),
                wanted@ == bytes@.take(i as int),
            decreases bytes@.len() - i,
        {
            wanted.push(bytes[i]);
            i += 1;
        }
        assert(wanted@ == bytes@);
        let ghost nothing = Seq::<u8>::empty();
        assert(nothing.skip(0) == nothing);
        Searcher {
            query: wanted,
            from,
            position: from,
            tail: Vec::new(),
            matches: 0,
            received: Ghost(nothing),
        }
    }

    /// Whether the query stands at `at` in the bytes that are kept.
    fn matches_at(&self, at: usize) -> (yes: bool)
        requires
            at + self.query.len() <= self.tail.len(),
        ensures
            yes == stands_at(self.tail@, self.query@, at as int),
    {
        let ghost part = self.tail@.subrange(at as int, at + self.query@.len());
        let mut i: usize = 0;
        while i < self.query.len()
            invariant
                i <= self.query@.len(),
                at + self.query.len() <= self.tail.len(),
                part == self.tail@.subrange(at as int, at + self.query@.len()),
                forall|k: int| 0 <= k < i ==> part[k] == self.query@[k],
            decreases self.query@.len() - i,
        {
            if self.tail[at + i] != self.query[i] {
                assert(part[i as int] != self.query@[i as int]);
                return false;
            }
            i += 1;
        }
        assert(part == self.query@);
        true
    }

    /// Takes in the next piece of the file, and tells the matches that it completes.
    pub fn feed(&mut self, piece: &[u8]) -> (found: Vec<SearchMatch>)
        requires
            old(self).well_formed(),
            old(self).from() + old(self).received().len() + piece@.len() <= u64::MAX,
        ensures
            final(self).well_formed(),
            final(self).query() == old(self).query(),
            final(self).from() == old(self).from(),
            final(self).received() == old(self).received() + piece@,
            file_places(final(self).received(), final(self).query(), final(self).from() as int)
                == file_places(old(self).received(), old(self).query(), old(self).from() as int)
                + match_offsets(found@),
    {
        let ghost before = self.received@;
        let ghost whole = before + piece@;
        let ghost start = search_end(before, self.query@, 0);
        let ghost query = self.query@;
        let ghost base = self.from as int;
        let ghost first = self.matches as int;
        proof {
            lemma_search_goes_on(before, piece@, query, 0);
        }
        let mut k: usize = 0;
        while k < piece.len()
            invariant
                k <= piece@.len(),
                0 <= start <= before.len(),
                self.query@ == query,
                self.from == base,
                self.matches == first,
                self.position == base + start,
                self.tail@ == before.skip(start) + piece@.take(k as int),
            decreases piece@.len() - k,
        {
            self.tail.push(piece[k]);
            k += 1;
            assert(self.tail@ == before.skip(start) + piece@.take(k as int));
        }
        assert(self.tail@ == whole.skip(start));
        let mut found: Vec<SearchMatch> = Vec::new();
        let mut at: usize = 0;
        let count: usize = self.query.len();
        if count == 0 {
            at = self.tail.len();
        } else {
            while count <= self.tail.len() && at <= self.tail.len() - count
                invariant
                    at <= self.tail@.len(),
                    count == query.len(),
                    count > 0,
                    self.query@ == query,
                    self.from == base,
                    self.position == base + start,
                    0 <= start,
                    self.tail@ == whole.skip(start),
                    start <= whole.len(),
                    base + whole.len() <= u64::MAX,
                    self.matches == first + found@.len(),
                    self.matches <= start + at,
                    places(whole, query, start) == match_offsets(found@).map_values(
                        |offset: int| offset - base,
                    ) + places(whole, query, start + at),
                    search_end(whole, query, start) == search_end(whole, query, start + at),
                decreases self.tail@.len() - at,
            {
                assert(whole.subrange(start + at, start + at + query.len())
                    == self.tail@.subrange(at as int, at + query.len()));
                let ghost earlier = match_offsets(found@).map_values(|offset: int| offset - base);
                if self.matches_at(at) {
                    found.push(SearchMatch { offset: self.position + at as u64 });
                    self.matches += 1;
                    at += count;
                    assert(match_offsets(found@).map_values(|offset: int| offset - base)
                        == earlier.push(start + at - query.len()));
                    assert(earlier + (seq![start + at - query.len()] + places(
                        whole,
                        query,
                        start + at,
                    )) == earlier.push(start + at - query.len()) + places(
                        whole,
                        query,
                        start + at,
                    ));
                } else {
                    at += 1;
                }
            }
        }
        let rest = self.tail.split_off(at);
        self.tail = rest;
        self.position = self.position + at as u64;
        self.received = Ghost(whole);
        proof {
            let gained = match_offsets(found@).map_values(|offset: int| offset - base);
            assert(places(whole, query, start) == gained);
            assert(places(whole, query, 0) == places(before, query, 0) + gained);
            assert(file_places(whole, query, base) == file_places(before, query, base)
                + match_offsets(found@));
            assert(search_end(whole, query, start) == start + at);
            assert(self.tail@ == whole.skip(start + at));
            assert(places(before, query, 0).len() + found@.len() == places(whole, query, 0).len());
        }
        found
    }

    /// How many matches were found.
    pub fn matches(&self) -> (count: u64)
        requires
            self.well_formed(),
        ensures
            count == places(self.received(), self.query(), 0).len(),
    {
        self.matches
    }
}

} // verus!
