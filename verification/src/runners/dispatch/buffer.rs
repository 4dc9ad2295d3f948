//! Names of buffers and the bindings they are bound to.
use vstd::prelude::*;

verus! {

/// Whether the names in `names` are all different.
pub open spec fn spec_names_distinct(names: Seq<Seq<char>>) -> bool {
    forall|i: int, j: int| 0 <= i < j < names.len() ==> names[i] != names[j]
}

/// The names of a list of named bindings.
pub open spec fn spec_binding_names(list: Seq<(&str, u32)>) -> Seq<Seq<char>> {
    Seq::new(list.len(), |i: int| list[i].0@)
}

/// The binding of the first entry of `entries` whose name is `name`.
pub open spec fn spec_lookup(entries: Seq<(String, u32)>, name: Seq<char>) -> Option<u32>
    decreases entries.len(),
{
    if entries.len() == 0 {
        None
    } else if entries[0].0@ == name {
        Some(entries[0].1)
    } else {
        spec_lookup(entries.drop_first(), name)
    }
}

/// Each buffer name with the binding that the buffer is bound to.
#[derive(Debug)]
pub struct BufNameToBinding(pub Vec<(String, u32)>);

impl BufNameToBinding {
    /// The names held, in the order in which they were given.
    pub open spec fn names(&self) -> Seq<Seq<char>> {
        Seq::new(self.0@.len(), |i: int| self.0@[i].0@)
    }

    /// No name occurs twice.
    pub open spec fn wf(&self) -> bool {
        spec_names_distinct(self.names())
    }

    /// The binding of the buffer `name`, if the table holds it.
    pub open spec fn spec_get(&self, name: Seq<char>) -> Option<u32> {
        spec_lookup(self.0@, name)
    }

    /// Whether the names of `list` are all different.
    pub fn names_distinct(list: &Vec<(&str, u32)>) -> (r: bool)
        ensures
            r == spec_names_distinct(spec_binding_names(list@)),
    {
        let ghost names = spec_binding_names(list@);
        let mut j: usize = 0;
        while j < list.len()
            invariant
                j <= list@.len(),
                names == spec_binding_names(list@),
                forall|a: int, b: int| 0 <= a < b < j ==> names[a] != names[b],
            decreases list@.len() - j,
        {
            let mut i: usize = 0;
            while i < j
                invariant
                    i <= j < list@.len(),
                    names == spec_binding_names(list@),
                    forall|a: int| 0 <= a < i ==> names[a] != names[j as int],
                decreases j - i,
            {
                let a: String = list[i].0.to_owned();
                let b: String = list[j].0.to_owned();
                if a == b {
                    assert(names[i as int] == names[j as int]);
                    return false;
                }
                i = i + 1;
            }
            j = j + 1;
        }
        true
    }

    /// Builds the table from a list of names and bindings.
    pub fn from_list(list: Vec<(&str, u32)>) -> (r: Self)
        requires
            spec_names_distinct(spec_binding_names(list@)),
        ensures
            r.wf(),
            r.0@.len() == list@.len(),
            forall|i: int|
                0 <= i < list@.len() ==> r.0@[i].0@ == list@[i].0@ && r.0@[i].1 == list@[i].1,
            forall|i: int| 0 <= i < list@.len() ==> r.spec_get(list@[i].0@) == Some(list@[i].1),
    {
        let mut entries: Vec<(String, u32)> = Vec::new();
        let mut i: usize = 0;
        while i < list.len()
            invariant
                i <= list@.len(),
                entries@.len() == i,
                forall|k: int|
                    0 <= k < i ==> entries@[k].0@ == list@[k].0@ && entries@[k].1 == list@[k].1,
            decreases list@.len() - i,
        {
            let (buf_name, binding) = list[i];
            entries.push((buf_name.to_owned(), binding));
            i = i + 1;
        }
        let r = BufNameToBinding(entries);
        proof {
            assert(r.names() =~= spec_binding_names(list@));
            assert forall|i: int| 0 <= i < list@.len() implies r.spec_get(list@[i].0@) == Some(
                list@[i].1,
            ) by {
                assert forall|a: int, b: int| 0 <= a < b < r.0@.len() implies r.0@[a].0@
                    != r.0@[b].0@ by {
                    assert(r.names()[a] != r.names()[b]);
                }
                lemma_lookup_distinct(r.0@, i);
            }
        }
        r
    }

    /// The binding of the buffer `name`, if the table holds it.
    pub fn get(&self, name: &str) -> (r: Option<u32>)
        ensures
            r == self.spec_get(name@),
    {
        let wanted: String = name.to_owned();
        let mut i: usize = 0;
        assert(self.0@.skip(0) =~= self.0@);
        while i < self.0.len()
            invariant
                i <= self.0@.len(),
                wanted@ == name@,
                spec_lookup(self.0@, name@) == spec_lookup(self.0@.skip(i as int), name@),
            decreases self.0@.len() - i,
        {
            proof {
                assert(self.0@.skip(i as int)[0] == self.0@[i as int]);
                assert(self.0@.skip(i as int).drop_first() =~= self.0@.skip(i + 1));
            }
            if self.0[i].0 == wanted {
                return Some(self.0[i].1);
            }
            i = i + 1;
        }
        None
    }
}

/// Where no name occurs twice, looking up the name of an entry finds that entry.
pub proof fn lemma_lookup_distinct(entries: Seq<(String, u32)>, i: int)
    requires
        0 <= i < entries.len(),
        forall|a: int, b: int| 0 <= a < b < entries.len() ==> entries[a].0@ != entries[b].0@,
    ensures
        spec_lookup(entries, entries[i].0@) == Some(entries[i].1),
    decreases entries.len(),
{
    if i > 0 {
        let rest = entries.drop_first();
        assert(entries[0].0@ != entries[i].0@);
        assert forall|a: int, b: int| 0 <= a < b < rest.len() implies rest[a].0@
            != rest[b].0@ by {
            assert(rest[a] == entries[a + 1] && rest[b] == entries[b + 1]);
        }
        assert(rest[i - 1] == entries[i]);
        lemma_lookup_distinct(rest, i - 1);
    }
}

/// Looking up a name that no entry has finds nothing.
pub proof fn lemma_lookup_absent(entries: Seq<(String, u32)>, name: Seq<char>)
    requires
        forall|i: int| 0 <= i < entries.len() ==> entries[i].0@ != name,
    ensures
        spec_lookup(entries, name) is None,
    decreases entries.len(),
{
    if entries.len() > 0 {
        let rest = entries.drop_first();
        assert forall|i: int| 0 <= i < rest.len() implies rest[i].0@ != name by {
            assert(rest[i] == entries[i + 1]);
        }
        lemma_lookup_absent(rest, name);
    }
}

} // verus!
