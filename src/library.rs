use crate::content::{Content, ContentHash, HashCollision};
use crate::effect_node::{decimal, decimal_string, split_lines, split_on};
use vstd::prelude::*;
use vstd::string::{StrSliceExecFns, StringExecFns};

verus! {

/// Load state of one item of the library.
pub enum Status<T> {
    Pending,
    Loaded(T),
    Failed { error: String },
    Invalid,
}

/// What a loaded item refers to.
#[derive(Clone, Copy, Debug, PartialEq, Eq, Structural)]
pub enum Entry {
    Effect { source_hash: ContentHash },
}

/// Whether two texts hold the same characters.
pub fn str_eq(a: &str, b: &str) -> (r: bool)
    ensures
        r == (a@ == b@),
{
    let n = a.unicode_len();
    if n != b.unicode_len() {
        return false;
    }
    let mut i: usize = 0;
    while i < n
        invariant
            n == a@.len(),
            n == b@.len(),
            i <= n,
            a@.subrange(0, i as int) == b@.subrange(0, i as int),
        decreases n - i,
    {
        if a.get_char(i) != b.get_char(i) {
            proof {
                assert(a@[i as int] != b@[i as int]);
            }
            return false;
        }
        proof {
            assert(a@.subrange(0, i + 1) =~= a@.subrange(0, i as int).push(a@[i as int]));
            assert(b@.subrange(0, i + 1) =~= b@.subrange(0, i as int).push(b@[i as int]));
        }
        i = i + 1;
    }
    proof {
        assert(a@ =~= a@.subrange(0, n as int));
        assert(b@ =~= b@.subrange(0, n as int));
    }
    true
}

/// Status of `name` in a list of named items: that of the item with that
/// name, `Invalid` where there is none.
pub open spec fn lookup(items: Seq<(String, Status<Entry>)>, name: Seq<char>) -> Status<Entry> {
    if exists|i: int| 0 <= i < items.len() && (#[trigger] items[i]).0@ == name {
        items[choose|i: int| 0 <= i < items.len() && (#[trigger] items[i]).0@ == name].1
    } else {
        Status::Invalid
    }
}

/// No two items share a name.
pub open spec fn names_unique(items: Seq<(String, Status<Entry>)>) -> bool {
    forall|i: int, j: int|
        0 <= i < items.len() && 0 <= j < items.len() && (#[trigger] items[i]).0@ == (
        #[trigger] items[j]).0@ ==> i == j
}

proof fn lemma_lookup_at(items: Seq<(String, Status<Entry>)>, i: int)
    requires
        names_unique(items),
        0 <= i < items.len(),
    ensures
        lookup(items, items[i].0@) == items[i].1,
{
    let name = items[i].0@;
    assert(0 <= i < items.len() && items[i].0@ == name);
}

/// A loaded status refers to content that the store holds.
pub open spec fn refers_to_stored(status: Status<Entry>, stored: Map<u64, Seq<char>>) -> bool {
    status matches Status::Loaded(Entry::Effect { source_hash }) ==> stored.contains_key(source_hash.0)
}

/// Shared state of the library: item statuses and the content they refer to.
pub struct LibraryRef {
    items: Vec<(String, Status<Entry>)>,
    content: Content,
}

impl LibraryRef {
    pub closed spec fn wf(&self) -> bool {
        &&& names_unique(self.items@)
        &&& forall|i: int| 0 <= i < self.items@.len() ==> refers_to_stored(#[trigger] self.items@[i].1, self.content@)
    }

    /// Status of the item named `name`.
    pub closed spec fn status(&self, name: Seq<char>) -> Status<Entry> {
        lookup(self.items@, name)
    }

    /// The content store.
    pub closed spec fn stored(&self) -> Map<u64, Seq<char>> {
        self.content@
    }

    /// No items, no content.
    pub fn new() -> (r: LibraryRef)
        ensures
            r.wf(),
            forall|n: Seq<char>| #[trigger] r.status(n) == Status::<Entry>::Invalid,
            r.stored() == Map::<u64, Seq<char>>::empty(),
    {
        LibraryRef { items: Vec::new(), content: Content::new() }
    }

    fn find(&self, name: &str) -> (r: Option<usize>)
        requires
            self.wf(),
        ensures
            match r {
                Some(i) => i < self.items@.len() && self.items@[i as int].0@ == name@,
                None => forall|j: int|
                    0 <= j < self.items@.len() ==> (#[trigger] self.items@[j]).0@ != name@,
            },
    {
        let mut i: usize = 0;
        while i < self.items.len()
            invariant
                i <= self.items@.len(),
                forall|j: int| 0 <= j < i ==> (#[trigger] self.items@[j]).0@ != name@,
            decreases self.items@.len() - i,
        {
            if str_eq(self.items[i].0.as_str(), name) {
                return Some(i);
            }
            i = i + 1;
        }
        None
    }

    /// Gives the item `name` the status `status`, adding it where absent.
    pub fn set_status(&mut self, name: String, status: Status<Entry>)
        requires
            old(self).wf(),
            refers_to_stored(status, old(self).stored()),
        ensures
            final(self).wf(),
            final(self).status(name@) == status,
            forall|n: Seq<char>| n != name@ ==> #[trigger] final(self).status(n) == old(self).status(n),
            final(self).stored() == old(self).stored(),
    {
        let ghost old_items = self.items@;
        let ghost st = status;
        let ghost nm = name@;
        match self.find(name.as_str()) {
            Some(i) => {
                self.items.set(i, (name, status));
                proof {
                    let items = self.items@;
                    assert forall|k: int| 0 <= k < items.len() implies refers_to_stored(#[trigger] items[k].1, self.content@) by {
                        if k != i {
                            assert(items[k] == old_items[k]);
                        }
                    }
                    assert forall|a: int, b: int|
                        0 <= a < items.len() && 0 <= b < items.len() && (#[trigger] items[a]).0@ == (
                        #[trigger] items[b]).0@ implies a == b by {
                        assert(old_items[a].0@ == items[a].0@);
                        assert(old_items[b].0@ == items[b].0@);
                    }
                    lemma_lookup_at(items, i as int);
                    assert forall|n: Seq<char>| n != nm implies #[trigger] lookup(items, n) == lookup(old_items, n) by {
                        if exists|k: int| 0 <= k < old_items.len() && (#[trigger] old_items[k]).0@ == n {
                            let k = choose|k: int| 0 <= k < old_items.len() && (#[trigger] old_items[k]).0@ == n;
                            lemma_lookup_at(old_items, k);
                            lemma_lookup_at(items, k);
                        } else {
                            assert forall|k: int| 0 <= k < items.len() implies (#[trigger] items[k]).0@ != n by {
                                assert(old_items[k].0@ != n);
                            }
                        }
                    }
                }
            },
            None => {
                self.items.push((name, status));
                proof {
                    let items = self.items@;
                    let last = old_items.len() as int;
                    assert forall|k: int| 0 <= k < items.len() implies refers_to_stored(#[trigger] items[k].1, self.content@) by {
                        if k < last {
                            assert(items[k] == old_items[k]);
                        }
                    }
                    assert forall|a: int, b: int|
                        0 <= a < items.len() && 0 <= b < items.len() && (#[trigger] items[a]).0@ == (
                        #[trigger] items[b]).0@ implies a == b by {
                        if a < last && b < last {
                            assert(old_items[a] == items[a]);
                            assert(old_items[b] == items[b]);
                        } else if a < last {
                            assert(old_items[a] == items[a]);
                        } else if b < last {
                            assert(old_items[b] == items[b]);
                        }
                    }
                    lemma_lookup_at(items, last);
                    assert forall|n: Seq<char>| n != nm implies #[trigger] lookup(items, n) == lookup(old_items, n) by {
                        if exists|k: int| 0 <= k < old_items.len() && (#[trigger] old_items[k]).0@ == n {
                            let k = choose|k: int| 0 <= k < old_items.len() && (#[trigger] old_items[k]).0@ == n;
                            lemma_lookup_at(old_items, k);
                            assert(old_items[k] == items[k]);
                            lemma_lookup_at(items, k);
                        } else {
                            assert forall|k: int| 0 <= k < items.len() implies (#[trigger] items[k]).0@ != n by {
                                if k < last {
                                    assert(old_items[k] == items[k]);
                                }
                            }
                        }
                    }
                }
            },
        }
    }

    /// Stores `source` and marks `name` loaded with a reference to it. On a
    /// hash collision nothing changes.
    pub fn set_effect_source(&mut self, name: String, source: String) -> (r: Result<
        ContentHash,
        HashCollision,
    >)
        requires
            old(self).wf(),
        ensures
            final(self).wf(),
            match r {
                Ok(h) => {
                    &&& h.0 == crate::content::text_hash(source@)
                    &&& final(self).stored() == old(self).stored().insert(h.0, source@)
                    &&& final(self).status(name@) == Status::Loaded(Entry::Effect { source_hash: h })
                    &&& forall|n: Seq<char>| n != name@ ==> #[trigger] final(self).status(n) == old(self).status(n)
                },
                Err(e) => {
                    &&& e.hash.0 == crate::content::text_hash(source@)
                    &&& old(self).stored().contains_key(e.hash.0)
                    &&& old(self).stored()[e.hash.0] != source@
                    &&& *final(self) == *old(self)
                },
            },
    {
        match self.content.insert(source) {
            Ok(hash) => {
                proof {
                    assert forall|k: int| 0 <= k < self.items@.len() implies refers_to_stored(#[trigger] self.items@[k].1, self.content@) by {
                        assert(refers_to_stored(self.items@[k].1, old(self).content@));
                    }
                }
                self.set_status(name, Status::Loaded(Entry::Effect { source_hash: hash }));
                Ok(hash)
            },
            Err(e) => Err(e),
        }
    }

    /// Marks `name` as being fetched.
    pub fn begin_load(&mut self, name: String)
        requires
            old(self).wf(),
        ensures
            final(self).wf(),
            final(self).status(name@) == Status::<Entry>::Pending,
            forall|n: Seq<char>| n != name@ ==> #[trigger] final(self).status(n) == old(self).status(n),
            final(self).stored() == old(self).stored(),
    {
        self.set_status(name, Status::Pending);
    }

    /// Every requested item with its status.
    pub fn items(&self) -> (r: Vec<(String, Status<Entry>)>)
        requires
            self.wf(),
        ensures
            forall|i: int| 0 <= i < r@.len() ==> #[trigger] self.status(r@[i].0@) == r@[i].1,
            forall|i: int, j: int| 0 <= i < r@.len() && 0 <= j < r@.len() && (#[trigger] r@[i]).0@ == (#[trigger] r@[j]).0@ ==> i == j,
            forall|n: Seq<char>| !(#[trigger] self.status(n) is Invalid) ==> exists|i: int| 0 <= i < r@.len() && (#[trigger] r@[i]).0@ == n,
    {
        let mut r: Vec<(String, Status<Entry>)> = Vec::new();
        let mut i: usize = 0;
        while i < self.items.len()
            invariant
                self.wf(),
                i <= self.items@.len(),
                r@.len() == i,
                forall|k: int| 0 <= k < i ==> (#[trigger] r@[k]).0@ == self.items@[k].0@ && r@[k].1 == self.items@[k].1,
            decreases self.items@.len() - i,
        {
            let status = match &self.items[i].1 {
                Status::Pending => Status::Pending,
                Status::Loaded(e) => Status::Loaded(*e),
                Status::Failed { error } => Status::Failed { error: error.clone() },
                Status::Invalid => Status::Invalid,
            };
            r.push((self.items[i].0.clone(), status));
            i = i + 1;
        }
        proof {
            assert forall|k: int| 0 <= k < r@.len() implies #[trigger] self.status(r@[k].0@) == r@[k].1 by {
                lemma_lookup_at(self.items@, k);
            }
            assert forall|n: Seq<char>| !(#[trigger] self.status(n) is Invalid) implies exists|k: int| 0 <= k < r@.len() && (#[trigger] r@[k]).0@ == n by {
                let k = choose|k: int| 0 <= k < self.items@.len() && (#[trigger] self.items@[k]).0@ == n;
                assert(r@[k].0@ == n);
            }
        }
        r
    }

    /// Marks `name` as failed, with the error that the fetch reported.
    pub fn fail_load(&mut self, name: String, error: String)
        requires
            old(self).wf(),
        ensures
            final(self).wf(),
            final(self).status(name@) == (Status::<Entry>::Failed { error }),
            forall|n: Seq<char>| n != name@ ==> #[trigger] final(self).status(n) == old(self).status(n),
            final(self).stored() == old(self).stored(),
    {
        self.set_status(name, Status::Failed { error });
    }

    /// The content that the item `name` stands for.
    pub fn effect_source(&self, name: &str) -> (r: Status<String>)
        requires
            self.wf(),
        ensures
            resolves(self.status(name@), self.stored(), r),
    {
        match self.find(name) {
            None => Status::Invalid,
            Some(i) => {
                proof {
                    lemma_lookup_at(self.items@, i as int);
                }
                match &self.items[i].1 {
                    Status::Pending => Status::Pending,
                    Status::Failed { error } => Status::Failed { error: error.clone() },
                    Status::Invalid => Status::Invalid,
                    Status::Loaded(Entry::Effect { source_hash }) => {
                        match self.content.get(source_hash) {
                            Some(text) => Status::Loaded(text.clone()),
                            None => {
                                let mut error = String::from_str("Invalid hash: ");
                                let digits = decimal_string(source_hash.0);
                                error.append(digits.as_str());
                                proof {
                                    reveal_strlit("Invalid hash: ");
                                }
                                Status::Failed { error }
                            },
                        }
                    },
                }
            },
        }
    }

    /// The text stored under `hash`, if any.
    pub fn content(&self, hash: &ContentHash) -> (r: Option<String>)
        ensures
            match r {
                Some(s) => self.stored().contains_key(hash.0) && s@ == self.stored()[hash.0],
                None => !self.stored().contains_key(hash.0),
            },
    {
        match self.content.get(hash) {
            Some(s) => Some(s.clone()),
            None => None,
        }
    }
}

/// What reading an item with status `status` out of the store `stored`
/// gives: the text for a loaded item whose content is present, a failure
/// naming the missing hash for one whose content is missing, and the
/// status itself otherwise.
pub open spec fn resolves(status: Status<Entry>, stored: Map<u64, Seq<char>>, r: Status<String>) -> bool {
    match status {
        Status::Pending => r is Pending,
        Status::Invalid => r is Invalid,
        Status::Failed { error } => r is Failed && r->error@ == error@,
        Status::Loaded(Entry::Effect { source_hash }) => if stored.contains_key(source_hash.0) {
            r is Loaded && r->Loaded_0@ == stored[source_hash.0]
        } else {
            r is Failed && r->error@ == "Invalid hash: "@ + decimal(source_hash.0 as nat)
        },
    }
}

/// The effect library: per-name load state and the content store that
/// loaded items refer to.
pub struct Library {
    library_ref: LibraryRef,
}

impl Library {
    pub closed spec fn wf(&self) -> bool {
        self.library_ref.wf()
    }

    /// Status of the item named `name`.
    pub closed spec fn status(&self, name: Seq<char>) -> Status<Entry> {
        self.library_ref.status(name)
    }

    /// The content store.
    pub closed spec fn stored(&self) -> Map<u64, Seq<char>> {
        self.library_ref.stored()
    }

    /// An empty library: every name is `Invalid`.
    pub fn new() -> (r: Library)
        ensures
            r.wf(),
            forall|n: Seq<char>| #[trigger] r.status(n) == Status::<Entry>::Invalid,
            r.stored() == Map::<u64, Seq<char>>::empty(),
    {
        Library { library_ref: LibraryRef::new() }
    }

    /// Marks `name` as being fetched.
    pub fn begin_load(&mut self, name: String)
        requires
            old(self).wf(),
        ensures
            final(self).wf(),
            final(self).status(name@) == Status::<Entry>::Pending,
            forall|n: Seq<char>| n != name@ ==> #[trigger] final(self).status(n) == old(self).status(n),
            final(self).stored() == old(self).stored(),
    {
        self.library_ref.begin_load(name);
    }

    /// Marks `name` as failed, with the error that the fetch reported.
    pub fn fail_load(&mut self, name: String, error: String)
        requires
            old(self).wf(),
        ensures
            final(self).wf(),
            final(self).status(name@) == (Status::<Entry>::Failed { error }),
            forall|n: Seq<char>| n != name@ ==> #[trigger] final(self).status(n) == old(self).status(n),
            final(self).stored() == old(self).stored(),
    {
        self.library_ref.fail_load(name, error);
    }

    /// Stores `source` and marks `name` loaded with a reference to it. On a
    /// hash collision nothing changes.
    pub fn set_effect_source(&mut self, name: String, source: String) -> (r: Result<
        ContentHash,
        HashCollision,
    >)
        requires
            old(self).wf(),
        ensures
            final(self).wf(),
            match r {
                Ok(h) => {
                    &&& h.0 == crate::content::text_hash(source@)
                    &&& final(self).stored() == old(self).stored().insert(h.0, source@)
                    &&& final(self).status(name@) == Status::Loaded(Entry::Effect { source_hash: h })
                    &&& forall|n: Seq<char>| n != name@ ==> #[trigger] final(self).status(n) == old(self).status(n)
                },
                Err(e) => {
                    &&& e.hash.0 == crate::content::text_hash(source@)
                    &&& old(self).stored().contains_key(e.hash.0)
                    &&& old(self).stored()[e.hash.0] != source@
                    &&& *final(self) == *old(self)
                },
            },
    {
        self.library_ref.set_effect_source(name, source)
    }

    /// The content that the item `name` stands for.
    pub fn effect_source(&self, name: &str) -> (r: Status<String>)
        requires
            self.wf(),
        ensures
            resolves(self.status(name@), self.stored(), r),
    {
        self.library_ref.effect_source(name)
    }

    /// Every requested item with its status.
    pub fn items(&self) -> (r: Vec<(String, Status<Entry>)>)
        requires
            self.wf(),
        ensures
            forall|i: int| 0 <= i < r@.len() ==> #[trigger] self.status(r@[i].0@) == r@[i].1,
            forall|i: int, j: int| 0 <= i < r@.len() && 0 <= j < r@.len() && (#[trigger] r@[i]).0@ == (#[trigger] r@[j]).0@ ==> i == j,
            forall|n: Seq<char>| !(#[trigger] self.status(n) is Invalid) ==> exists|i: int| 0 <= i < r@.len() && (#[trigger] r@[i]).0@ == n,
    {
        self.library_ref.items()
    }

    /// The text stored under `hash`, if any.
    pub fn content(&self, hash: &ContentHash) -> (r: Option<String>)
        ensures
            match r {
                Some(s) => self.stored().contains_key(hash.0) && s@ == self.stored()[hash.0],
                None => !self.stored().contains_key(hash.0),
            },
    {
        self.library_ref.content(hash)
    }
}

/// `l` without one trailing carriage return.
pub open spec fn strip_cr(l: Seq<char>) -> Seq<char> {
    if l.len() > 0 && l.last() == '\r' {
        l.drop_last()
    } else {
        l
    }
}

/// The lines of a manifest: pieces between newlines, each without a
/// trailing carriage return, and no empty piece after a final newline.
pub open spec fn manifest_lines(text: Seq<char>) -> Seq<Seq<char>> {
    let p = split_on(text, '\n');
    let q = if p.len() > 0 && p.last().len() == 0 {
        p.drop_last()
    } else {
        p
    };
    q.map_values(|l: Seq<char>| strip_cr(l))
}

/// The effect names that a manifest lists, one per line.
pub fn manifest_names(text: &str) -> (r: Vec<String>)
    ensures
        r@.len() == manifest_lines(text@).len(),
        forall|i: int| 0 <= i < r@.len() ==> #[trigger] r@[i]@ == manifest_lines(text@)[i],
{
    let pieces = split_lines(text);
    let ghost p = split_on(text@, '\n');
    let mut n = pieces.len();
    if n > 0 && pieces[n - 1].as_str().unicode_len() == 0 {
        n = n - 1;
    }
    let ghost q = if p.len() > 0 && p.last().len() == 0 {
        p.drop_last()
    } else {
        p
    };
    let mut r: Vec<String> = Vec::new();
    let mut i: usize = 0;
    while i < n
        invariant
            n == q.len(),
            n <= pieces@.len(),
            pieces@.len() == p.len(),
            forall|k: int| 0 <= k < pieces@.len() ==> #[trigger] pieces@[k]@ == p[k],
            forall|k: int| 0 <= k < q.len() ==> #[trigger] q[k] == p[k],
            i <= n,
            r@.len() == i,
            forall|k: int| 0 <= k < i ==> #[trigger] r@[k]@ == strip_cr(q[k]),
        decreases n - i,
    {
        let line = pieces[i].as_str();
        let len = line.unicode_len();
        let piece = if len > 0 && line.get_char(len - 1) == '\r' {
            line.substring_char(0, len - 1)
        } else {
            line
        };
        proof {
            assert(q[i as int] == p[i as int]);
            if len > 0 {
                assert(line@.last() == line@[len - 1]);
                assert(line@.subrange(0, len - 1) =~= line@.drop_last());
            }
        }
        r.push(String::from_str(piece));
        i = i + 1;
    }
    r
}

/// An item read back right after its text was stored is that text.
pub proof fn lemma_loaded_reads_back(
    stored: Map<u64, Seq<char>>,
    hash: ContentHash,
    text: Seq<char>,
    r: Status<String>,
)
    requires
        resolves(Status::Loaded(Entry::Effect { source_hash: hash }), stored.insert(hash.0, text), r),
    ensures
        r is Loaded,
        r->Loaded_0@ == text,
{
}

/// Loads of two different names do not interfere: where each step changes
/// only the status of its own name, as `begin_load`, `set_effect_source` and
/// `fail_load` do, the status that a step on `a` left for `a` survives a
/// later step on `b`, in either order of completion.
pub proof fn lemma_loads_independent(l0: Library, l1: Library, l2: Library, a: Seq<char>, b: Seq<char>)
    requires
        a != b,
        forall|n: Seq<char>| n != a ==> #[trigger] l1.status(n) == l0.status(n),
        forall|n: Seq<char>| n != b ==> #[trigger] l2.status(n) == l1.status(n),
    ensures
        l2.status(a) == l1.status(a),
        l1.status(b) == l0.status(b),
        forall|n: Seq<char>| n != a && n != b ==> #[trigger] l2.status(n) == l0.status(n),
{
}

/// Storing the text of one name leaves what every other name reads back
/// unchanged: its status is kept, and content that it refers to is never
/// replaced, since a store accepts a text only where its key is free or
/// holds that same text.
pub proof fn lemma_other_source_kept(
    l0: Library,
    l1: Library,
    name: Seq<char>,
    other: Seq<char>,
    hash: u64,
    text: Seq<char>,
    r: Status<String>,
)
    requires
        l0.wf(),
        other != name,
        !(l0.stored().contains_key(hash) && l0.stored()[hash] != text),
        l1.stored() == l0.stored().insert(hash, text),
        forall|n: Seq<char>| n != name ==> #[trigger] l1.status(n) == l0.status(n),
    ensures
        resolves(l1.status(other), l1.stored(), r) == resolves(l0.status(other), l0.stored(), r),
{
    if let Status::Loaded(Entry::Effect { source_hash }) = l0.status(other) {
        let items = l0.library_ref.items@;
        let i = choose|i: int| 0 <= i < items.len() && (#[trigger] items[i]).0@ == other;
        lemma_lookup_at(items, i);
        assert(l0.stored().contains_key(source_hash.0));
        assert(l1.stored()[source_hash.0] == l0.stored()[source_hash.0]);
    }
}

/// An item whose fetch failed reads back as that failure, with its text.
pub proof fn lemma_failed_reads_back(
    stored: Map<u64, Seq<char>>,
    error: String,
    r: Status<String>,
)
    requires
        resolves(Status::Failed { error }, stored, r),
    ensures
        r is Failed,
        r->error@ == error@,
{
}

} // verus!
