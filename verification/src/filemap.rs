//! Mappings from repository-relative paths to blob hashes. A tree, the
//! `files` of a starlog and the staging set are all of this shape.

use crate::error::DockError;
use crate::json::{json_object_text, json_parsed, object_to_string, text_members, JsonValue};
use crate::pairs::{
    first_index, first_pairs, keys_of, lemma_first_index, lemma_first_pairs,
    lemma_pairs_map_distinct, lemma_pairs_map_dom, lemma_put, lemma_put_all, lemma_remove,
    pairs_map, put, put_all,
};
use crate::text::{same_text, views};
use vstd::prelude::*;

verus! {

/// A mapping from paths to hashes that remembers the order in which its
/// paths came.
#[derive(Debug)]
pub struct FileMap {
    entries: Vec<(String, String)>,
}

impl View for FileMap {
    type V = Map<Seq<char>, Seq<char>>;

    /// The mapping itself.
    open spec fn view(&self) -> Map<Seq<char>, Seq<char>> {
        pairs_map(self.pairs())
    }
}

impl FileMap {
    /// The pairs of path and hash, in the order in which the paths came.
    pub closed spec fn pairs(&self) -> Seq<(Seq<char>, Seq<char>)> {
        self.entries@.map_values(|e: (String, String)| (e.0@, e.1@))
    }

    /// The paths, in the order in which they came.
    pub open spec fn paths(&self) -> Seq<Seq<char>> {
        keys_of(self.pairs())
    }

    /// No path occurs twice.
    #[verifier::type_invariant]
    pub closed spec fn wf(&self) -> bool {
        keys_of(self.pairs()).no_duplicates()
    }

    /// The paths of a map are distinct, the map holds exactly them, and it
    /// gives each the hash that stands beside it.
    pub fn facts(&self)
        ensures
            self.paths().no_duplicates(),
            forall|path: Seq<char>| #[trigger]
                self@.contains_key(path) <==> self.paths().contains(path),
            forall|i: int|
                0 <= i < self.pairs().len() ==> self@.contains_key((#[trigger] self.pairs()[i]).0)
                    && self@[self.pairs()[i].0] == self.pairs()[i].1,
    {
        proof {
            use_type_invariant(self);
            let pairs = self.pairs();
            lemma_pairs_map_dom(pairs);
            assert forall|i: int| 0 <= i < pairs.len() implies self@.contains_key(
                (#[trigger] pairs[i]).0,
            ) && self@[pairs[i].0] == pairs[i].1 by {
                lemma_pairs_map_distinct(pairs, i);
            }
        }
    }

    /// The map without any path.
    pub fn new() -> (map: FileMap)
        ensures
            map.pairs() == Seq::<(Seq<char>, Seq<char>)>::empty(),
            map@ == Map::<Seq<char>, Seq<char>>::empty(),
    {
        let map = FileMap { entries: Vec::new() };
        assert(map.pairs() =~= Seq::<(Seq<char>, Seq<char>)>::empty());
        map
    }

    /// How many paths the map holds.
    pub fn len(&self) -> (n: usize)
        ensures
            n == self.pairs().len(),
    {
        self.entries.len()
    }

    /// The path at position `i`.
    pub fn path_at(&self, i: usize) -> (path: &String)
        requires
            i < self.pairs().len(),
        ensures
            path@ == self.pairs()[i as int].0,
    {
        &self.entries[i].0
    }

    /// The hash at position `i`.
    pub fn hash_at(&self, i: usize) -> (hash: &String)
        requires
            i < self.pairs().len(),
        ensures
            hash@ == self.pairs()[i as int].1,
    {
        &self.entries[i].1
    }

    /// Where `path` stands, if the map holds it.
    pub fn position(&self, path: &str) -> (found: Option<usize>)
        ensures
            match found {
                Some(i) => i == first_index(self.paths(), path@) && i < self.pairs().len(),
                None => first_index(self.paths(), path@) == self.pairs().len(),
            },
    {
        let mut i: usize = 0;
        proof {
            lemma_first_index(self.paths(), path@);
        }
        let ghost at = first_index(self.paths(), path@);
        while i < self.entries.len()
            invariant
                i <= self.entries.len(),
                at == first_index(self.paths(), path@),
                i <= at <= self.paths().len(),
                self.paths().len() == self.entries.len(),
                at < self.paths().len() ==> self.paths()[at] == path@,
                forall|k: int| 0 <= k < at ==> self.paths()[k] != path@,
            decreases self.entries.len() - i,
        {
            assert(self.paths()[i as int] == self.entries@[i as int].0@);
            if same_text(self.entries[i].0.as_str(), path) {
                return Some(i);
            }
            i += 1;
        }
        None
    }

    /// Whether the map holds `path`.
    pub fn contains(&self, path: &str) -> (r: bool)
        ensures
            r == self@.contains_key(path@),
    {
        self.position(path).is_some()
    }

    /// The hash recorded for `path`.
    pub fn get(&self, path: &str) -> (found: Option<&String>)
        ensures
            match found {
                Some(hash) => self@.contains_key(path@) && hash@ == self@[path@],
                None => !self@.contains_key(path@),
            },
    {
        match self.position(path) {
            Some(i) => Some(&self.entries[i].1),
            None => None,
        }
    }

    /// Records `hash` for `path`, in place of what was recorded for it before.
    pub fn insert(&mut self, path: String, hash: String)
        ensures
            final(self).pairs() == put(old(self).pairs(), path@, hash@),
            final(self)@ == old(self)@.insert(path@, hash@),
    {
        proof {
            use_type_invariant(&*self);
            lemma_put(self.pairs(), path@, hash@);
        }
        let ghost before = self.pairs();
        let found = self.position(path.as_str());
        let mut entries: Vec<(String, String)> = Vec::new();
        std::mem::swap(&mut entries, &mut self.entries);
        match found {
            Some(i) => {
                entries[i] = (path, hash);
            },
            None => {
                entries.push((path, hash));
            },
        }
        assert(entries@.map_values(|e: (String, String)| (e.0@, e.1@)) =~= put(
            before,
            path@,
            hash@,
        ));
        self.entries = entries;
    }

    /// Forgets `path`, if the map holds it; the other paths stay in their
    /// order.
    pub fn remove(&mut self, path: &str)
        ensures
            final(self)@ == old(self)@.remove(path@),
            final(self).pairs() == ({
                let at = first_index(old(self).paths(), path@);
                if at < old(self).pairs().len() {
                    old(self).pairs().remove(at)
                } else {
                    old(self).pairs()
                }
            }),
    {
        let ghost before = self.pairs();
        proof {
            use_type_invariant(&*self);
            lemma_pairs_map_dom(before);
            lemma_first_index(keys_of(before), path@);
        }
        match self.position(path) {
            Some(i) => {
                proof {
                    lemma_remove(before, i as int);
                }
                let mut entries: Vec<(String, String)> = Vec::new();
                std::mem::swap(&mut entries, &mut self.entries);
                entries.remove(i);
                assert(entries@.map_values(|e: (String, String)| (e.0@, e.1@)) =~= before.remove(
                    i as int,
                ));
                self.entries = entries;
            },
            None => {
                assert(self@.remove(path@) =~= self@);
            },
        }
    }

    /// A copy of the paths, in the order in which they came.
    pub fn path_list(&self) -> (list: Vec<String>)
        ensures
            views(list@) == self.paths(),
    {
        let mut list: Vec<String> = Vec::new();
        let mut i: usize = 0;
        while i < self.entries.len()
            invariant
                i <= self.entries.len(),
                self.paths().len() == self.entries.len(),
                views(list@) == self.paths().take(i as int),
            decreases self.entries.len() - i,
        {
            let ghost before = list@;
            let path = self.entries[i].0.clone();
            list.push(path);
            proof {
                assert(self.paths()[i as int] == path@);
                assert(views(list@) =~= views(before).push(path@));
                assert(self.paths().take(i + 1) == self.paths().take(i as int).push(path@));
            }
            i += 1;
        }
        assert(self.paths().take(i as int) == self.paths());
        list
    }

    /// Records every pair of `other`, in its order, each in place of what was
    /// recorded for its path before.
    pub fn overlay(&mut self, other: &FileMap)
        ensures
            final(self).pairs() == put_all(old(self).pairs(), other.pairs()),
            final(self)@ == old(self)@.union_prefer_right(other@),
    {
        let ghost start = self.pairs();
        proof {
            use_type_invariant(&*self);
            use_type_invariant(other);
            lemma_put_all(start, other.pairs());
        }
        let mut i: usize = 0;
        while i < other.len()
            invariant
                i <= other.pairs().len(),
                self.pairs() == put_all(start, other.pairs().take(i as int)),
            decreases other.pairs().len() - i,
        {
            let path = other.path_at(i).clone();
            let hash = other.hash_at(i).clone();
            proof {
                let now = other.pairs().take(i + 1);
                assert(now.drop_last() == other.pairs().take(i as int));
                assert(now.last() == (path@, hash@));
            }
            self.insert(path, hash);
            i += 1;
        }
        assert(other.pairs().take(i as int) == other.pairs());
    }

    /// Reads a mapping from a JSON value: a flat object with only strings
    /// for values. Anything else is `Corrupt`.
    pub fn from_json(value: &JsonValue) -> (r: Result<FileMap, DockError>)
        ensures
            match r {
                Ok(map) => value.string_map() == Some(map@) && match *value {
                    JsonValue::Object(members) => map.pairs() == first_pairs(
                        text_members(members@)->0,
                    ),
                    _ => false,
                },
                Err(e) => value.string_map() is None && e == DockError::Corrupt,
            },
    {
        let members = match value {
            JsonValue::Object(members) => members,
            _ => {
                return Err(DockError::Corrupt);
            },
        };
        let mut map = FileMap::new();
        let mut i: usize = 0;
        assert(members@.take(0) =~= Seq::empty());
        while i < members.len()
            invariant
                i <= members.len(),
                *value == JsonValue::Object(*members),
                text_members(members@.take(i as int)) is Some,
                map.pairs() == first_pairs(text_members(members@.take(i as int))->0),
            decreases members.len() - i,
        {
            let ghost now = members@.take(i + 1);
            proof {
                assert(now.drop_last() == members@.take(i as int));
                assert(now.last() == members@[i as int]);
            }
            match &members[i].1 {
                JsonValue::Text(hash) => {
                    let ghost sofar = text_members(now)->0;
                    proof {
                        assert(sofar.drop_last() == text_members(members@.take(i as int))->0);
                        lemma_pairs_map_dom(map.pairs());
                        lemma_first_index(map.paths(), members@[i as int].0@);
                    }
                    if !map.contains(members[i].0.as_str()) {
                        map.insert(members[i].0.clone(), hash.clone());
                    }
                },
                _ => {
                    proof {
                        lemma_text_members_prefix(members@, i + 1);
                    }
                    return Err(DockError::Corrupt);
                },
            }
            i += 1;
        }
        proof {
            assert(members@.take(i as int) == members@);
            lemma_first_pairs(text_members(members@)->0);
        }
        Ok(map)
    }

    /// The mapping as JSON text: an object with a string for each path. The
    /// text depends on the mapping alone, not on the order in which the
    /// paths came, and reads back as the same mapping. Every mapping has
    /// such a text.
    pub fn to_json(&self) -> (r: Result<String, DockError>)
        ensures
            r matches Ok(text) && text@ == json_object_text(self@) && json_parsed(text@) is Some
                && json_parsed(text@)->0.string_map() == Some(self@),
    {
        proof {
            use_type_invariant(self);
        }
        match object_to_string(&self.entries) {
            Ok(text) => Ok(text),
            Err(_) => Err(DockError::IoError),
        }
    }
}

/// Where the members up to some point are not all strings, neither are all
/// of them.
pub proof fn lemma_text_members_prefix(members: Seq<(String, JsonValue)>, n: int)
    requires
        0 <= n <= members.len(),
        text_members(members.take(n)) is None,
    ensures
        text_members(members) is None,
    decreases members.len() - n,
{
    if n < members.len() {
        assert(members.drop_last().take(n) == members.take(n));
        lemma_text_members_prefix(members.drop_last(), n);
    } else {
        assert(members.take(n) == members);
    }
}

} // verus!
