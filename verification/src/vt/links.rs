//! The table of hyperlinks that cells refer to by number.
use vstd::prelude::*;

use crate::text::texts;

verus! {

/// How many hyperlinks are kept.
pub const MAX_LINKS: usize = 8192;

/// A link table, mathematically: the URIs with consecutive ids from `first` on.
pub struct LinkModel {
    pub first: int,
    pub uris: Seq<Seq<char>>,
}

impl LinkModel {
    pub open spec fn empty() -> LinkModel {
        LinkModel { first: 1, uris: Seq::empty() }
    }

    /// Ids start at 1 and fit a `u32`, at most `MAX_LINKS` are kept, and no URI has two.
    pub open spec fn wf(self) -> bool {
        &&& self.first >= 1
        &&& self.first + self.uris.len() <= u32::MAX + 1
        &&& self.uris.len() <= MAX_LINKS
        &&& self.uris.no_duplicates()
    }

    /// The URI of an id, `None` where the table does not hold it.
    pub open spec fn uri(self, id: int) -> Option<Seq<char>> {
        if self.first <= id < self.first + self.uris.len() {
            Some(self.uris[id - self.first])
        } else {
            None
        }
    }

    /// The id of a URI after it was looked up or entered. `None` once the ids are used up.
    pub open spec fn id_for(self, uri: Seq<char>) -> Option<u32> {
        if self.uris.contains(uri) {
            Some((self.first + self.uris.index_of(uri)) as u32)
        } else if self.first + self.uris.len() > u32::MAX {
            None
        } else {
            Some((self.first + self.uris.len()) as u32)
        }
    }

    /// The table with a URI entered. A full table gives up its oldest entry.
    pub open spec fn with(self, uri: Seq<char>) -> LinkModel {
        if self.uris.contains(uri) || self.first + self.uris.len() > u32::MAX {
            self
        } else if self.uris.len() >= MAX_LINKS {
            LinkModel { first: self.first + 1, uris: self.uris.drop_first().push(uri) }
        } else {
            LinkModel { first: self.first, uris: self.uris.push(uri) }
        }
    }
}

/// A bounded table of URIs, each under its own id.
pub struct LinkTable {
    first: u32,
    uris: Vec<String>,
}

impl View for LinkTable {
    type V = LinkModel;

    closed spec fn view(&self) -> LinkModel {
        LinkModel { first: self.first as int, uris: texts(self.uris@) }
    }
}

impl LinkTable {
    pub fn new() -> (r: LinkTable)
        ensures
            r@ == LinkModel::empty(),
            r@.wf(),
    {
        let r = LinkTable { first: 1, uris: Vec::new() };
        proof {
            assert(r@.uris =~= Seq::empty());
        }
        r
    }

    /// The URI of an id.
    pub fn uri(&self, id: u32) -> (r: Option<&str>)
        ensures
            r is Some <==> self@.uri(id as int) is Some,
            r is Some ==> (r->Some_0)@ == self@.uri(id as int)->Some_0,
    {
        if id >= self.first && ((id - self.first) as usize) < self.uris.len() {
            Some(self.uris[(id - self.first) as usize].as_str())
        } else {
            None
        }
    }

    /// Looks a URI up, entering it where it is new.
    pub fn intern(&mut self, uri: String) -> (r: Option<u32>)
        requires
            old(self)@.wf(),
        ensures
            r == old(self)@.id_for(uri@),
            final(self)@ == old(self)@.with(uri@),
            final(self)@.wf(),
            r is Some ==> final(self)@.uri(r->Some_0 as int) == Some(uri@),
    {
        let n: usize = self.uris.len();
        for i in 0..n
            invariant
                n == self.uris@.len(),
                *self == *old(self),
                self@.wf(),
                forall|j: int| 0 <= j < i ==> (#[trigger] self@.uris[j]) != uri@,
        {
            if self.uris[i] == uri {
                proof {
                    assert(self@.uris[i as int] == uri@);
                    let k = self@.uris.index_of(uri@);
                    assert(self@.uris[k] == uri@);
                }
                return Some(self.first + i as u32);
            }
        }
        proof {
            assert(!self@.uris.contains(uri@));
        }
        let next: u64 = self.first as u64 + n as u64;
        if next > u32::MAX as u64 {
            return None;
        }
        if n >= MAX_LINKS {
            let _ = self.uris.remove(0);
            self.first = self.first + 1;
        }
        let ghost u = uri@;
        self.uris.push(uri);
        proof {
            assert(self@.uris =~= old(self)@.with(u).uris);
            assert(self@.uris.last() == u);
        }
        Some(next as u32)
    }
}

/// A URI that is looked up again gets the id it got before.
pub proof fn same_uri_same_id(table: LinkModel, uri: Seq<char>)
    requires
        table.wf(),
    ensures
        table.with(uri).id_for(uri) == table.id_for(uri),
        table.with(uri).with(uri) == table.with(uri),
{
    let after = table.with(uri);
    if !table.uris.contains(uri) && table.first + table.uris.len() <= u32::MAX {
        assert(after.uris.last() == uri);
        assert(after.uris.contains(uri));
        assert(after.uris.no_duplicates());
        assert(after.uris[after.uris.index_of(uri)] == uri);
        assert(after.uris.index_of(uri) == after.uris.len() - 1);
    }
}

/// Two ids that the table holds stand for different URIs.
pub proof fn ids_are_distinct(table: LinkModel, a: int, b: int)
    requires
        table.wf(),
        table.uri(a) is Some,
        table.uri(b) is Some,
        a != b,
    ensures
        table.uri(a) != table.uri(b),
{
}

/// An id stands for one URI as long as it stands for any, and one that was given up never comes
/// back: viewers can keep what they were told.
pub proof fn ids_are_not_reused(table: LinkModel, uri: Seq<char>, id: int)
    requires
        table.wf(),
    ensures
        table.uri(id) is Some && table.with(uri).uri(id) is Some ==> table.with(uri).uri(id)
            == table.uri(id),
        id < table.first ==> table.with(uri).uri(id) is None,
        table.first <= table.with(uri).first,
{
}

/// A new link joins the others. Only where there are 8192 of them the oldest goes.
pub proof fn links_stay(table: LinkModel, uri: Seq<char>, id: int)
    requires
        table.wf(),
        table.uri(id) is Some,
        !table.uris.contains(uri),
        table.first + table.uris.len() <= u32::MAX,
    ensures
        table.uris.len() < 8192 || id > table.first ==> table.with(uri).uri(id) == table.uri(id),
        table.uris.len() == 8192 ==> table.with(uri).uri(table.first) is None,
        table.with(uri).uri(table.first + table.uris.len()) == Some(uri),
        table.id_for(uri) == Some((table.first + table.uris.len()) as u32),
        LinkModel::empty().id_for(uri) == Some(1u32),
{
    let after = table.with(uri);
    if table.uris.len() >= 8192 {
        assert(after.uris.last() == uri);
    }
}

} // verus!
