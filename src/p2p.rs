use vstd::prelude::*;
use vstd::string::{StrSliceExecFns, StringSliceAdditionalSpecFns};

use crate::network::{is_valid_url, regex_matches, URL_REGEX};

verus! {

/// Two byte strings are equal.
fn bytes_eq(a: &Vec<u8>, b: &Vec<u8>) -> (r: bool)
    ensures
        r == (a@ == b@),
{
    if a.len() != b.len() {
        return false;
    }
    let mut i: usize = 0;
    while i < a.len()
        invariant
            a@.len() == b@.len(),
            i <= a@.len(),
            forall|j: int| 0 <= j < i ==> a@[j] == b@[j],
        decreases a@.len() - i,
    {
        if a[i] != b[i] {
            return false;
        }
        i = i + 1;
    }
    assert(a@ =~= b@);
    true
}

/// The kinds of request of the peer-to-peer transport, by name.
#[derive(Clone, Copy, Debug, PartialEq, Eq, Structural)]
pub enum RequestType {
    P2PDiscover,
    NewTransaction,
    NewBlock,
    SyncRequest,
}

/// The name of a request kind, as bytes.
pub open spec fn request_name(t: RequestType) -> Seq<u8> {
    match t {
        RequestType::P2PDiscover => "P2PDiscover".spec_bytes(),
        RequestType::NewTransaction => "NewTransaction".spec_bytes(),
        RequestType::NewBlock => "NewBlock".spec_bytes(),
        RequestType::SyncRequest => "SyncRequest".spec_bytes(),
    }
}

impl RequestType {
    /// The request kind whose name the bytes are, if any.
    pub fn try_from_bytes(value: Vec<u8>) -> (r: Result<RequestType, ()>)
        ensures
            r is Ok ==> request_name(r->Ok_0) == value@,
            r is Err ==> forall|t: RequestType| request_name(t) != value@,
    {
        if bytes_eq(&value, &"P2PDiscover".as_bytes_vec()) {
            Ok(RequestType::P2PDiscover)
        } else if bytes_eq(&value, &"NewTransaction".as_bytes_vec()) {
            Ok(RequestType::NewTransaction)
        } else if bytes_eq(&value, &"NewBlock".as_bytes_vec()) {
            Ok(RequestType::NewBlock)
        } else if bytes_eq(&value, &"SyncRequest".as_bytes_vec()) {
            Ok(RequestType::SyncRequest)
        } else {
            Err(())
        }
    }
}

/// The kinds of data of the peer-to-peer transport, by name.
#[derive(Clone, Copy, Debug, PartialEq, Eq, Structural)]
pub enum DataType {
    Disconnect,
    P2PDiscover,
    NewBlockData,
    NewBlock,
    SyncRequest,
}

/// The name of a data kind, as bytes.
pub open spec fn data_name(t: DataType) -> Seq<u8> {
    match t {
        DataType::Disconnect => "Disconnect".spec_bytes(),
        DataType::P2PDiscover => "P2PDiscover".spec_bytes(),
        DataType::NewBlockData => "NewBlockData".spec_bytes(),
        DataType::NewBlock => "NewBlock".spec_bytes(),
        DataType::SyncRequest => "SyncRequest".spec_bytes(),
    }
}

impl DataType {
    /// The data kind whose name the bytes are, if any.
    pub fn try_from_bytes(value: Vec<u8>) -> (r: Result<DataType, ()>)
        ensures
            r is Ok ==> data_name(r->Ok_0) == value@,
            r is Err ==> forall|t: DataType| data_name(t) != value@,
    {
        if bytes_eq(&value, &"Disconnect".as_bytes_vec()) {
            Ok(DataType::Disconnect)
        } else if bytes_eq(&value, &"P2PDiscover".as_bytes_vec()) {
            Ok(DataType::P2PDiscover)
        } else if bytes_eq(&value, &"NewBlockData".as_bytes_vec()) {
            Ok(DataType::NewBlockData)
        } else if bytes_eq(&value, &"NewBlock".as_bytes_vec()) {
            Ok(DataType::NewBlock)
        } else if bytes_eq(&value, &"SyncRequest".as_bytes_vec()) {
            Ok(DataType::SyncRequest)
        } else {
            Err(())
        }
    }
}

/// Why a peer request was refused.
#[derive(Clone, Copy, Debug, PartialEq, Eq, Structural)]
pub enum PeerError {
    /// The URL does not have the accepted shape.
    InvalidUrl,
    /// The peer set is full.
    PeerListFull,
    /// The URL is already a peer.
    AlreadyPeer,
    /// The URL is not a peer.
    NotAPeer,
}

/// The URLs of a list of strings.
pub open spec fn urls(s: Seq<String>) -> Seq<Seq<char>> {
    s.map_values(|x: String| x@)
}

/// The peer set: at most `max_peers` URLs, each once; trusted peers are never evicted.
pub struct PeerSet {
    peers: Vec<String>,
    trusted: Vec<String>,
    max_peers: usize,
}

impl View for PeerSet {
    type V = Seq<Seq<char>>;

    closed spec fn view(&self) -> Seq<Seq<char>> {
        urls(self.peers@)
    }
}

fn index_of(list: &Vec<String>, url: &String) -> (r: Option<usize>)
    ensures
        match r {
            Some(i) => i < list@.len() && list@[i as int]@ == url@,
            None => forall|i: int| 0 <= i < list@.len() ==> list@[i]@ != url@,
        },
{
    let mut i: usize = 0;
    while i < list.len()
        invariant
            i <= list@.len(),
            forall|j: int| 0 <= j < i ==> list@[j]@ != url@,
        decreases list@.len() - i,
    {
        if list[i] == *url {
            return Some(i);
        }
        i = i + 1;
    }
    None
}

impl PeerSet {
    /// The URLs that are never evicted.
    pub closed spec fn trusted_urls(&self) -> Seq<Seq<char>> {
        urls(self.trusted@)
    }

    /// The most peers the set holds.
    pub closed spec fn capacity(&self) -> nat {
        self.max_peers as nat
    }

    /// The set holds no more peers than its capacity, each URL once.
    pub open spec fn wf(&self) -> bool {
        &&& self@.len() <= self.capacity()
        &&& self@.no_duplicates()
    }

    /// A peer set that starts with the trusted peers, each once, as many as fit.
    pub fn new(trusted: Vec<String>, max_peers: usize) -> (r: Self)
        ensures
            r.wf(),
            r.trusted_urls() == urls(trusted@),
            r.capacity() == max_peers,
            forall|u: Seq<char>| #[trigger] r@.contains(u) ==> urls(trusted@).contains(u),
            forall|k: int|
                0 <= k < trusted@.len() ==> r@.contains(#[trigger] urls(trusted@)[k]) || r@.len() == max_peers,
    {
        let mut set = PeerSet { peers: Vec::new(), trusted, max_peers };
        let n = set.trusted.len();
        let mut i: usize = 0;
        assert(set@ =~= Seq::<Seq<char>>::empty());
        while i < n
            invariant
                n == set.trusted@.len(),
                set.trusted == trusted,
                set.max_peers == max_peers,
                i <= n,
                set.wf(),
                forall|u: Seq<char>| #[trigger] set@.contains(u) ==> urls(trusted@).contains(u),
                forall|k: int| 0 <= k < i ==> set@.contains(#[trigger] urls(trusted@)[k]) || set@.len() == max_peers,
            decreases n - i,
        {
            assert(urls(trusted@)[i as int] == trusted@[i as int]@);
            if set.peers.len() < max_peers && !set.contains(&set.trusted[i]) {
                let u = set.trusted[i].clone();
                let ghost before = set@;
                set.peers.push(u);
                proof {
                    assert(set@ =~= before.push(u@));
                    assert(set@[before.len() as int] == u@);
                    assert(set@.no_duplicates()) by {
                        assert forall|x: int, y: int| 0 <= x < set@.len() && 0 <= y < set@.len() && x != y implies set@[x] != set@[y] by {
                            if x < before.len() && y < before.len() {
                                assert(set@[x] == before[x] && set@[y] == before[y]);
                            } else if x < before.len() {
                                assert(before.contains(set@[x]));
                            } else {
                                assert(before.contains(set@[y]));
                            }
                        }
                    }
                    assert forall|v: Seq<char>| #[trigger] set@.contains(v) implies urls(trusted@).contains(v) by {
                        let j = choose|j: int| 0 <= j < set@.len() && set@[j] == v;
                        if j < before.len() {
                            assert(before[j] == v);
                            assert(before.contains(v));
                        } else {
                            assert(urls(trusted@)[i as int] == v);
                        }
                    }
                    assert forall|k: int| 0 <= k < i + 1 implies set@.contains(#[trigger] urls(trusted@)[k]) || set@.len() == max_peers by {
                        if k < i {
                            if before.contains(urls(trusted@)[k]) {
                                let j = choose|j: int| 0 <= j < before.len() && before[j] == urls(trusted@)[k];
                                assert(set@[j] == urls(trusted@)[k]);
                            }
                        } else {
                            assert(set@[before.len() as int] == urls(trusted@)[k]);
                        }
                    }
                }
            }
            i = i + 1;
        }
        set
    }

    /// The number of peers.
    pub fn len(&self) -> (r: usize)
        ensures
            r == self@.len(),
    {
        self.peers.len()
    }

    /// The peer URLs.
    pub fn get_peers(&self) -> (r: &Vec<String>)
        ensures
            urls(r@) == self@,
    {
        &self.peers
    }

    /// Whether `url` is a peer.
    pub fn contains(&self, url: &String) -> (r: bool)
        ensures
            r == self@.contains(url@),
    {
        match index_of(&self.peers, url) {
            Some(i) => {
                assert(self@[i as int] == url@);
                true
            },
            None => {
                assert(!self@.contains(url@)) by {
                    if self@.contains(url@) {
                        let j = choose|j: int| 0 <= j < self@.len() && self@[j] == url@;
                        assert(self.peers@[j]@ == url@);
                    }
                }
                false
            },
        }
    }

    /// Adds the caller's URL as a peer: it must have the accepted shape, the
    /// set must have room, and the URL must not be a peer already.
    pub fn pair_up(&mut self, url: String) -> (r: Result<(), PeerError>)
        requires
            old(self).wf(),
        ensures
            final(self).wf(),
            final(self).trusted_urls() == old(self).trusted_urls(),
            final(self).capacity() == old(self).capacity(),
            !regex_matches(URL_REGEX@, url@) ==> r == Err::<(), PeerError>(PeerError::InvalidUrl),
            regex_matches(URL_REGEX@, url@) && old(self)@.len() >= old(self).capacity() ==> r == Err::<
                (),
                PeerError,
            >(PeerError::PeerListFull),
            regex_matches(URL_REGEX@, url@) && old(self)@.len() < old(self).capacity() && old(self)@.contains(url@)
                ==> r == Err::<(), PeerError>(PeerError::AlreadyPeer),
            regex_matches(URL_REGEX@, url@) && old(self)@.len() < old(self).capacity() && !old(self)@.contains(url@)
                ==> r is Ok,
            r is Ok ==> final(self)@ == old(self)@.push(url@),
            r is Err ==> final(self)@ == old(self)@,
    {
        if !is_valid_url(url.as_str()) {
            return Err(PeerError::InvalidUrl);
        }
        if self.peers.len() >= self.max_peers {
            return Err(PeerError::PeerListFull);
        }
        if self.contains(&url) {
            return Err(PeerError::AlreadyPeer);
        }
        let ghost before = self@;
        self.peers.push(url);
        assert(urls(self.peers@) =~= urls(old(self).peers@).push(url@));
        proof {
            assert forall|x: int, y: int| 0 <= x < self@.len() && 0 <= y < self@.len() && x != y implies self@[x] != self@[y] by {
                if x < before.len() && y < before.len() {
                    assert(self@[x] == before[x] && self@[y] == before[y]);
                } else if x < before.len() {
                    assert(before.contains(self@[x]));
                } else {
                    assert(before.contains(self@[y]));
                }
            }
        }
        Ok(())
    }

    /// Removes the caller's URL from the peers.
    pub fn unpair(&mut self, url: &String) -> (r: Result<(), PeerError>)
        requires
            old(self).wf(),
        ensures
            final(self).wf(),
            final(self).trusted_urls() == old(self).trusted_urls(),
            final(self).capacity() == old(self).capacity(),
            !regex_matches(URL_REGEX@, url@) ==> r == Err::<(), PeerError>(PeerError::InvalidUrl),
            regex_matches(URL_REGEX@, url@) && !old(self)@.contains(url@) ==> r == Err::<
                (),
                PeerError,
            >(PeerError::NotAPeer),
            regex_matches(URL_REGEX@, url@) && old(self)@.contains(url@) ==> r is Ok,
            r is Ok ==> exists|i: int|
                0 <= i < old(self)@.len() && old(self)@[i] == url@ && final(self)@ == old(self)@.remove(i),
            r is Err ==> final(self)@ == old(self)@,
    {
        if !is_valid_url(url.as_str()) {
            return Err(PeerError::InvalidUrl);
        }
        match index_of(&self.peers, url) {
            Some(i) => {
                self.peers.remove(i);
                assert(urls(self.peers@) =~= urls(old(self).peers@).remove(i as int));
                assert(old(self)@[i as int] == url@);
                Ok(())
            },
            None => {
                assert(!old(self)@.contains(url@)) by {
                    if old(self)@.contains(url@) {
                        let j = choose|j: int| 0 <= j < old(self)@.len() && old(self)@[j] == url@;
                        assert(old(self).peers@[j]@ == url@);
                    }
                }
                Err(PeerError::NotAPeer)
            },
        }
    }

    /// Removes every copy of `url` from the peers.
    fn remove_all(&mut self, url: &String)
        requires
            old(self).wf(),
        ensures
            final(self).wf(),
            final(self).trusted == old(self).trusted,
            final(self).max_peers == old(self).max_peers,
            !final(self)@.contains(url@),
            forall|u: Seq<char>| #[trigger] final(self)@.contains(u) <==> old(self)@.contains(u) && u != url@,
    {
        loop
            invariant
                self.wf(),
                self.trusted == old(self).trusted,
                self.max_peers == old(self).max_peers,
                forall|u: Seq<char>| #[trigger] self@.contains(u) && u != url@ <==> old(self)@.contains(u) && u != url@,
                forall|u: Seq<char>| #[trigger] self@.contains(u) ==> old(self)@.contains(u),
            ensures
                self.wf(),
                self.trusted == old(self).trusted,
                self.max_peers == old(self).max_peers,
                !self@.contains(url@),
                forall|u: Seq<char>| #[trigger] self@.contains(u) && u != url@ <==> old(self)@.contains(u) && u != url@,
            decreases self.peers@.len(),
        {
            match index_of(&self.peers, url) {
                Some(i) => {
                    let ghost before = self@;
                    self.peers.remove(i);
                    proof {
                        assert(self@ =~= before.remove(i as int));
                        assert forall|u: Seq<char>| #[trigger] self@.contains(u) && u != url@ <==> before.contains(u) && u != url@ by {
                            if before.contains(u) && u != url@ {
                                let j = choose|j: int| 0 <= j < before.len() && before[j] == u;
                                assert(j != i);
                                if j < i {
                                    assert(self@[j] == u);
                                } else {
                                    assert(self@[j - 1] == u);
                                }
                            }
                            if self@.contains(u) {
                                let j = choose|j: int| 0 <= j < self@.len() && self@[j] == u;
                                if j < i {
                                    assert(before[j] == u);
                                } else {
                                    assert(before[j + 1] == u);
                                }
                            }
                        }
                        assert forall|u: Seq<char>| #[trigger] self@.contains(u) implies old(self)@.contains(u) by {
                            let j = choose|j: int| 0 <= j < self@.len() && self@[j] == u;
                            if j < i {
                                assert(before[j] == u);
                            } else {
                                assert(before[j + 1] == u);
                            }
                            assert(before.contains(u));
                        }
                    }
                },
                None => {
                    assert(!self@.contains(url@)) by {
                        if self@.contains(url@) {
                            let j = choose|j: int| 0 <= j < self@.len() && self@[j] == url@;
                            assert(self.peers@[j]@ == url@);
                        }
                    }
                    break;
                },
            }
        }
        assert forall|u: Seq<char>| #[trigger] self@.contains(u) <==> old(self)@.contains(u) && u != url@ by {
            if self@.contains(u) {
                assert(u != url@);
            }
        }
    }

    /// Evicts the listed peers that are not trusted, then adds the new peers
    /// that are not yet peers while there is room. Afterwards no listed
    /// untrusted peer is left unless it came back as a new peer, every new
    /// peer is present unless the set is full, and every trusted peer that
    /// was present still is.
    pub fn cycle_peers(&mut self, to_remove: &Vec<String>, new_peers: Vec<String>)
        requires
            old(self).wf(),
        ensures
            final(self).wf(),
            final(self).trusted_urls() == old(self).trusted_urls(),
            final(self).capacity() == old(self).capacity(),
            forall|u: Seq<char>|
                old(self)@.contains(u) && old(self).trusted_urls().contains(u) ==> final(self)@.contains(u),
            forall|u: Seq<char>|
                #[trigger] final(self)@.contains(u) ==> old(self)@.contains(u) || urls(new_peers@).contains(u),
            forall|k: int|
                0 <= k < to_remove@.len() && !old(self).trusted_urls().contains(#[trigger] urls(to_remove@)[k])
                    && !urls(new_peers@).contains(urls(to_remove@)[k]) ==> !final(self)@.contains(
                    urls(to_remove@)[k],
                ),
            forall|m: int|
                0 <= m < new_peers@.len() ==> final(self)@.contains(#[trigger] urls(new_peers@)[m])
                    || final(self)@.len() >= final(self).capacity(),
    {
        let mut k: usize = 0;
        while k < to_remove.len()
            invariant
                self.wf(),
                k <= to_remove@.len(),
                self.trusted == old(self).trusted,
                self.max_peers == old(self).max_peers,
                forall|u: Seq<char>|
                    old(self)@.contains(u) && old(self).trusted_urls().contains(u) ==> self@.contains(u),
                forall|u: Seq<char>| #[trigger] self@.contains(u) ==> old(self)@.contains(u),
                forall|j: int|
                    0 <= j < k && !old(self).trusted_urls().contains(#[trigger] urls(to_remove@)[j])
                        ==> !self@.contains(urls(to_remove@)[j]),
            decreases to_remove@.len() - k,
        {
            let target = &to_remove[k];
            assert(urls(to_remove@)[k as int] == target@);
            match index_of(&self.trusted, target) {
                None => {
                    proof {
                        assert(!old(self).trusted_urls().contains(target@)) by {
                            if old(self).trusted_urls().contains(target@) {
                                let j = choose|j: int| 0 <= j < self.trusted@.len() && urls(self.trusted@)[j] == target@;
                                assert(self.trusted@[j]@ == target@);
                            }
                        }
                    }
                    self.remove_all(target);
                },
                Some(t) => {
                    assert(urls(self.trusted@)[t as int] == target@);
                    assert(old(self).trusted_urls().contains(target@));
                },
            }
            k = k + 1;
        }
        let mut m: usize = 0;
        while m < new_peers.len()
            invariant
                self.wf(),
                m <= new_peers@.len(),
                self.trusted == old(self).trusted,
                self.max_peers == old(self).max_peers,
                forall|u: Seq<char>|
                    old(self)@.contains(u) && old(self).trusted_urls().contains(u) ==> self@.contains(u),
                forall|u: Seq<char>|
                    #[trigger] self@.contains(u) ==> old(self)@.contains(u) || urls(new_peers@).contains(u),
                forall|j: int|
                    0 <= j < to_remove@.len() && !old(self).trusted_urls().contains(#[trigger] urls(to_remove@)[j])
                        && !urls(new_peers@).contains(urls(to_remove@)[j]) ==> !self@.contains(urls(to_remove@)[j]),
                forall|j: int|
                    0 <= j < m ==> self@.contains(#[trigger] urls(new_peers@)[j]) || self@.len() >= self.max_peers,
            decreases new_peers@.len() - m,
        {
            assert(urls(new_peers@)[m as int] == new_peers@[m as int]@);
            if self.peers.len() < self.max_peers && !self.contains(&new_peers[m]) {
                let ghost before = self@;
                let p = new_peers[m].clone();
                self.peers.push(p);
                proof {
                    assert(self@ =~= before.push(p@));
                    assert(self@[before.len() as int] == p@);
                    assert forall|u: Seq<char>|
                        old(self)@.contains(u) && old(self).trusted_urls().contains(u) implies self@.contains(u) by {
                        let j = choose|j: int| 0 <= j < before.len() && before[j] == u;
                        assert(self@[j] == u);
                    }
                    assert forall|u: Seq<char>| #[trigger] self@.contains(u) implies old(self)@.contains(u) || urls(
                        new_peers@,
                    ).contains(u) by {
                        let j = choose|j: int| 0 <= j < self@.len() && self@[j] == u;
                        if j < before.len() {
                            assert(before[j] == u);
                            assert(before.contains(u));
                        } else {
                            assert(urls(new_peers@)[m as int] == u);
                            assert(urls(new_peers@).contains(u));
                        }
                    }
                    assert forall|j: int|
                        0 <= j < to_remove@.len() && !old(self).trusted_urls().contains(#[trigger] urls(to_remove@)[j])
                            && !urls(new_peers@).contains(urls(to_remove@)[j]) implies !self@.contains(urls(to_remove@)[j]) by {
                        if self@.contains(urls(to_remove@)[j]) {
                            let i = choose|i: int| 0 <= i < self@.len() && self@[i] == urls(to_remove@)[j];
                            if i < before.len() {
                                assert(before[i] == urls(to_remove@)[j]);
                            } else {
                                assert(urls(new_peers@)[m as int] == urls(to_remove@)[j]);
                            }
                        }
                    }
                    assert forall|j: int|
                        0 <= j < m + 1 implies self@.contains(#[trigger] urls(new_peers@)[j]) || self@.len() >= self.max_peers by {
                        if j < m {
                            if before.contains(urls(new_peers@)[j]) {
                                let i = choose|i: int| 0 <= i < before.len() && before[i] == urls(new_peers@)[j];
                                assert(self@[i] == urls(new_peers@)[j]);
                            }
                        } else {
                            assert(self@[before.len() as int] == urls(new_peers@)[j]);
                        }
                    }
                }
            }
            m = m + 1;
        }
    }
}

} // verus!
