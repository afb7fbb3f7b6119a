//! Finding the entities that an animation's targets name: the named
//! entities under a player entity, walked depth first from its children.
use vstd::prelude::*;
use crate::entries::{find_entry, insert_entry, insert_key, lookup, names_view, lemma_find_key_found};
use crate::text::str_eq;
use crate::tree::{EntityEntry, children_of, entities_distinct, entry_of, find_entry_of};
use crate::data::names_of;

verus! {

/// The number of entries that a walk has not taken yet.
pub open spec fn unvisited(visited: Seq<bool>) -> nat
    decreases visited.len(),
{
    if visited.len() == 0 {
        0
    } else {
        unvisited(visited.drop_last()) + if visited.last() {
            0nat
        } else {
            1nat
        }
    }
}

/// Taking an entry that was not taken leaves one fewer to take.
pub proof fn lemma_unvisited_take(visited: Seq<bool>, i: int)
    requires
        0 <= i < visited.len(),
        !visited[i],
    ensures
        unvisited(visited.update(i, true)) + 1 == unvisited(visited),
    decreases visited.len(),
{
    let after = visited.update(i, true);
    if i == visited.len() - 1 {
        assert(after.drop_last() =~= visited.drop_last());
    } else {
        assert(after.drop_last() =~= visited.drop_last().update(i, true));
        lemma_unvisited_take(visited.drop_last(), i);
    }
}

/// Whether the walk takes entry `i`: an entry that it has not taken before.
pub open spec fn takes(visited: Seq<bool>, i: int) -> bool {
    0 <= i < visited.len() && !visited[i]
}

/// The named entities met by a depth first walk that takes the last entity
/// of `stack`, and for an entity with an entry that it has not taken before
/// records its name and puts its children on the stack; `visited` marks the
/// entries taken.
pub open spec fn spec_walk(entries: Seq<EntityEntry>, stack: Seq<u64>, visited: Seq<bool>) -> Seq<(Seq<char>, u64)>
    decreases unvisited(visited), stack.len(),
{
    if stack.len() == 0 {
        Seq::empty()
    } else {
        let x = stack.last();
        match entry_of(entries, x) {
            Some(i) => if takes(visited, i) {
                proof {
                    lemma_unvisited_take(visited, i);
                }
                seq![(entries[i].name@, x)] + spec_walk(
                    entries,
                    stack.drop_last() + children_of(entries[i]),
                    visited.update(i, true),
                )
            } else {
                spec_walk(entries, stack.drop_last(), visited)
            },
            None => spec_walk(entries, stack.drop_last(), visited),
        }
    }
}

/// No entry taken yet, for `n` entries.
pub open spec fn none_visited(n: nat) -> Seq<bool> {
    Seq::new(n, |i: int| false)
}

/// `n` marks of `false`.
fn unvisited_marks(n: usize) -> (v: Vec<bool>)
    ensures
        v@ == none_visited(n as nat),
{
    let mut v: Vec<bool> = Vec::with_capacity(n);
    let mut i: usize = 0;
    while i < n
        invariant
            0 <= i <= n,
            v@ == Seq::new(i as nat, |k: int| false),
        decreases n - i,
    {
        v.push(false);
        assert(v@ =~= Seq::new((i + 1) as nat, |k: int| false));
        i = i + 1;
    }
    v
}

/// The map from names to entities after setting each name met, in order.
pub open spec fn names_after(map: Seq<(Seq<char>, u64)>, met: Seq<(Seq<char>, u64)>) -> Seq<(Seq<char>, u64)>
    decreases met.len(),
{
    if met.len() == 0 {
        map
    } else {
        names_after(insert_key(map, met[0].0, met[0].1), met.drop_first())
    }
}

/// Puts the children of an entry on the stack, in order.
fn push_children(stack: &mut Vec<u64>, children: &Option<Vec<u64>>)
    ensures
        final(stack)@ == old(stack)@ + match *children {
            Some(c) => c@,
            None => Seq::<u64>::empty(),
        },
{
    match children {
        Some(c) => {
            let mut k: usize = 0;
            let ghost base = stack@;
            while k < c.len()
                invariant
                    0 <= k <= c@.len(),
                    stack@ == base + c@.take(k as int),
                decreases c@.len() - k,
            {
                stack.push(c[k]);
                assert(c@.take(k + 1) =~= c@.take(k as int).push(c@[k as int]));
                k = k + 1;
            }
            assert(c@.take(c@.len() as int) =~= c@);
        },
        None => {
            assert(stack@ =~= stack@ + Seq::<u64>::empty());
        },
    }
}

/// The named entities under a player, found by name: the walk starts from
/// the player's children, takes each entity once, and a name met later
/// replaces the entity of one met earlier.
pub fn collect_named_entities(entries: &Vec<EntityEntry>, roots: &Vec<u64>) -> (r: Vec<(String, u64)>)
    requires
        entities_distinct(entries@),
    ensures
        names_view(r@) == names_after(Seq::empty(), spec_walk(entries@, roots@, none_visited(entries@.len()))),
{
    let mut visited = unvisited_marks(entries.len());
    let mut stack: Vec<u64> = roots.clone();
    let mut map: Vec<(String, u64)> = Vec::new();
    let ghost total = spec_walk(entries@, roots@, visited@);
    assert(names_view(map@) =~= Seq::<(Seq<char>, u64)>::empty());
    while stack.len() > 0
        invariant
            entities_distinct(entries@),
            visited@.len() == entries@.len(),
            names_after(Seq::empty(), total) == names_after(names_view(map@), spec_walk(entries@, stack@, visited@)),
        decreases unvisited(visited@), stack@.len(),
    {
        let x = stack.pop().unwrap();
        let ghost old_stack = stack@.push(x);
        assert(old_stack.drop_last() =~= stack@);
        match find_entry_of(entries, x) {
            Some(i) => {
                if !visited[i] {
                    let ghost before = visited@;
                    proof {
                        lemma_unvisited_take(before, i as int);
                    }
                    visited.set(i, true);
                    push_children(&mut stack, &entries[i].children);
                    assert(stack@ =~= old_stack.drop_last() + children_of(entries@[i as int]));
                    let ghost met = seq![(entries@[i as int].name@, x)] + spec_walk(entries@, stack@, visited@);
                    assert(met.drop_first() =~= spec_walk(entries@, stack@, visited@));
                    insert_entry(&mut map, entries[i].name.clone(), x);
                }
            },
            None => {},
        }
    }
    map
}

/// The entity that a target name binds to: the player itself for `_self`,
/// otherwise the named entity found under the player.
pub fn bind_target(name: &str, self_entity: u64, named: &Vec<(String, u64)>) -> (r: Option<u64>)
    ensures
        name@ == "_self"@ ==> r == Some(self_entity),
        name@ != "_self"@ ==> r == lookup(names_view(named@), name@),
{
    if str_eq(name, "_self") {
        Some(self_entity)
    } else {
        proof {
            lemma_find_key_found(names_view(named@), name@);
        }
        match find_entry(named, name) {
            Some(i) => Some(named[i].1),
            None => None,
        }
    }
}


/// Each listed entity with the same path above it.
pub open spec fn frames_of(list: Seq<u64>, path: Seq<Seq<char>>) -> Seq<(u64, Seq<Seq<char>>)> {
    Seq::new(list.len(), |k: int| (list[k], path))
}

/// The named entities met by a depth first walk, each with the path of
/// names from the walk's start down to it; as `spec_walk`, an entry is taken
/// once.
pub open spec fn spec_path_walk(
    entries: Seq<EntityEntry>,
    stack: Seq<(u64, Seq<Seq<char>>)>,
    visited: Seq<bool>,
) -> Seq<(u64, Seq<Seq<char>>)>
    decreases unvisited(visited), stack.len(),
{
    if stack.len() == 0 {
        Seq::empty()
    } else {
        let (x, above) = stack.last();
        match entry_of(entries, x) {
            Some(i) => if takes(visited, i) {
                proof {
                    lemma_unvisited_take(visited, i);
                }
                let path = above.push(entries[i].name@);
                seq![(x, path)] + spec_path_walk(
                    entries,
                    stack.drop_last() + frames_of(children_of(entries[i]), path),
                    visited.update(i, true),
                )
            } else {
                spec_path_walk(entries, stack.drop_last(), visited)
            },
            None => spec_path_walk(entries, stack.drop_last(), visited),
        }
    }
}

/// The frames of a stack with names as character sequences.
pub open spec fn frames_view(s: Seq<(u64, Vec<String>)>) -> Seq<(u64, Seq<Seq<char>>)> {
    Seq::new(s.len(), |k: int| (s[k].0, names_of(s[k].1@)))
}

/// A copy of a list of names.
fn copy_names(v: &Vec<String>) -> (r: Vec<String>)
    ensures
        names_of(r@) == names_of(v@),
{
    let mut r: Vec<String> = Vec::with_capacity(v.len());
    let mut i: usize = 0;
    while i < v.len()
        invariant
            0 <= i <= v@.len(),
            names_of(r@) == names_of(v@).take(i as int),
        decreases v@.len() - i,
    {
        let ghost before = r@;
        let c = v[i].clone();
        r.push(c);
        assert(names_of(r@) =~= names_of(before).push(v@[i as int]@));
        assert(names_of(v@).take(i + 1) =~= names_of(v@).take(i as int).push(v@[i as int]@));
        i = i + 1;
    }
    assert(names_of(v@).take(v@.len() as int) =~= names_of(v@));
    r
}

/// The named entities under a player, each with the path of names from the
/// player's children down to it, in the order of a depth first walk that
/// takes the last child first and each entity once.
pub fn collect_entity_paths(entries: &Vec<EntityEntry>, roots: &Vec<u64>) -> (r: Vec<(u64, Vec<String>)>)
    requires
        entities_distinct(entries@),
    ensures
        frames_view(r@) == spec_path_walk(
            entries@,
            frames_of(roots@, Seq::empty()),
            none_visited(entries@.len()),
        ),
{
    let mut visited = unvisited_marks(entries.len());
    let mut stack: Vec<(u64, Vec<String>)> = Vec::new();
    let mut i: usize = 0;
    while i < roots.len()
        invariant
            0 <= i <= roots@.len(),
            frames_view(stack@) == frames_of(roots@.take(i as int), Seq::empty()),
        decreases roots@.len() - i,
    {
        let ghost before = stack@;
        let empty: Vec<String> = Vec::new();
        assert(names_of(empty@) =~= Seq::<Seq<char>>::empty());
        stack.push((roots[i], empty));
        assert(frames_view(stack@) =~= frames_view(before).push((roots@[i as int], Seq::<Seq<char>>::empty())));
        assert(frames_of(roots@.take(i + 1), Seq::empty()) =~= frames_of(roots@.take(i as int), Seq::empty()).push(
            (roots@[i as int], Seq::<Seq<char>>::empty()),
        ));
        i = i + 1;
    }
    assert(roots@.take(roots@.len() as int) =~= roots@);
    let mut out: Vec<(u64, Vec<String>)> = Vec::new();
    let ghost total = spec_path_walk(entries@, frames_view(stack@), visited@);
    assert(frames_view(out@) =~= Seq::<(u64, Seq<Seq<char>>)>::empty());
    while stack.len() > 0
        invariant
            entities_distinct(entries@),
            visited@.len() == entries@.len(),
            total == frames_view(out@) + spec_path_walk(entries@, frames_view(stack@), visited@),
        decreases unvisited(visited@), stack@.len(),
    {
        let ghost before_stack = frames_view(stack@);
        let (x, above) = stack.pop().unwrap();
        assert(before_stack.drop_last() =~= frames_view(stack@));
        assert(before_stack.last() == (x, names_of(above@)));
        let found = match find_entry_of(entries, x) {
            Some(k) => if !visited[k] {
                Some(k)
            } else {
                None
            },
            None => None,
        };
        match found {
            Some(k) => {
                proof {
                    lemma_unvisited_take(visited@, k as int);
                }
                visited.set(k, true);
                let mut path = above;
                let ghost above_view = names_of(path@);
                path.push(entries[k].name.clone());
                assert(names_of(path@) =~= above_view.push(entries@[k as int].name@));
                let ghost base = frames_view(stack@);
                let ghost pv = names_of(path@);
                match &entries[k].children {
                    Some(c) => {
                        let mut j: usize = 0;
                        while j < c.len()
                            invariant
                                0 <= j <= c@.len(),
                                names_of(path@) == pv,
                                frames_view(stack@) == base + frames_of(c@.take(j as int), pv),
                            decreases c@.len() - j,
                        {
                            let copy = copy_names(&path);
                            let ghost before = stack@;
                            stack.push((c[j], copy));
                            assert(frames_view(stack@) =~= frames_view(before).push((c@[j as int], pv)));
                            assert(frames_of(c@.take(j + 1), pv) =~= frames_of(c@.take(j as int), pv).push((c@[j as int], pv)));
                            assert(frames_view(stack@) =~= base + frames_of(c@.take(j + 1), pv));
                            j = j + 1;
                        }
                        assert(c@.take(c@.len() as int) =~= c@);
                    },
                    None => {
                        assert(frames_of(children_of(entries@[k as int]), pv) =~= Seq::<(u64, Seq<Seq<char>>)>::empty());
                    },
                }
                assert(frames_view(stack@) =~= base + frames_of(children_of(entries@[k as int]), pv));
                let ghost prev_out = frames_view(out@);
                out.push((x, path));
                assert(frames_view(out@) =~= prev_out.push((x, pv)));
                assert(prev_out.push((x, pv)) + spec_path_walk(entries@, frames_view(stack@), visited@)
                    =~= prev_out + (seq![(x, pv)] + spec_path_walk(entries@, frames_view(stack@), visited@)));
            },
            None => {},
        }
    }
    assert(frames_view(out@) + Seq::<(u64, Seq<Seq<char>>)>::empty() =~= frames_view(out@));
    out
}


/// Whether two lists of names hold the same names in the same order.
pub fn names_eq(a: &Vec<String>, b: &Vec<String>) -> (r: bool)
    ensures
        r == (names_of(a@) == names_of(b@)),
{
    if a.len() != b.len() {
        assert(names_of(a@).len() != names_of(b@).len());
        return false;
    }
    let mut i: usize = 0;
    while i < a.len()
        invariant
            0 <= i <= a@.len(),
            a@.len() == b@.len(),
            forall|j: int| 0 <= j < i ==> a@[j]@ == b@[j]@,
        decreases a@.len() - i,
    {
        if !str_eq(a[i].as_str(), b[i].as_str()) {
            assert(names_of(a@)[i as int] != names_of(b@)[i as int]);
            return false;
        }
        i = i + 1;
    }
    assert(names_of(a@) =~= names_of(b@));
    true
}

/// `i` is the first entry of `paths` whose path is `path`.
pub open spec fn first_with_path(paths: Seq<(u64, Seq<Seq<char>>)>, path: Seq<Seq<char>>, i: int) -> bool {
    &&& 0 <= i < paths.len()
    &&& paths[i].1 == path
    &&& forall|j: int| 0 <= j < i ==> (#[trigger] paths[j]).1 != path
}

/// The entity that a target's path of names binds to: the player itself for
/// the path `_self`, otherwise the first entity met with that path.
pub fn bind_target_path(target: &Vec<String>, self_entity: u64, paths: &Vec<(u64, Vec<String>)>) -> (r: Option<u64>)
    ensures
        names_of(target@) == seq!["_self"@] ==> r == Some(self_entity),
        names_of(target@) != seq!["_self"@] ==> match r {
            Some(e) => exists|i: int| first_with_path(frames_view(paths@), names_of(target@), i) && #[trigger] frames_view(paths@)[i].0 == e,
            None => forall|i: int| 0 <= i < paths@.len() ==> (#[trigger] frames_view(paths@)[i]).1 != names_of(target@),
        },
{
    if target.len() == 1 && str_eq(target[0].as_str(), "_self") {
        assert(names_of(target@) =~= seq!["_self"@]);
        return Some(self_entity);
    }
    proof {
        if names_of(target@) == seq!["_self"@] {
            assert(names_of(target@).len() == 1);
            assert(names_of(target@)[0] == target@[0]@);
            assert(target@[0]@ == "_self"@);
            assert(false);
        }
    }
    let mut i: usize = 0;
    while i < paths.len()
        invariant
            0 <= i <= paths@.len(),
            names_of(target@) != seq!["_self"@],
            forall|j: int| 0 <= j < i ==> (#[trigger] frames_view(paths@)[j]).1 != names_of(target@),
        decreases paths@.len() - i,
    {
        if names_eq(&paths[i].1, target) {
            assert(first_with_path(frames_view(paths@), names_of(target@), i as int));
            assert(frames_view(paths@)[i as int].0 == paths@[i as int].0);
            return Some(paths[i].0);
        }
        i = i + 1;
    }
    None
}

} // verus!
