//! The level editor's bookkeeping: the objects placed in the level, each
//! under an identifier of its own, and the keys held down.
use vstd::prelude::*;
use crate::engine::{Event, Key, KeySet};

verus! {

/// An object of the level: what it is, and the identifier it was spawned under.
pub struct Object<K> {
    pub kind: K,
    pub id: u32,
}

/// `k` is the first position of `objects` holding identifier `id`.
pub open spec fn first_with_id<K>(objects: Seq<Object<K>>, id: u32, k: int) -> bool {
    &&& 0 <= k < objects.len()
    &&& objects[k].id == id
    &&& forall|j: int| 0 <= j < k ==> #[trigger] objects[j].id != id
}

/// Identifiers are distinct and all below `next_id`.
pub open spec fn ids_fresh_below<K>(objects: Seq<Object<K>>, next_id: u32) -> bool {
    &&& forall|k: int| 0 <= k < objects.len() ==> #[trigger] objects[k].id < next_id
    &&& forall|a: int, b: int|
        0 <= a < b < objects.len() ==> #[trigger] objects[a].id != #[trigger] objects[b].id
}

/// The editor's state: the objects in the order they were spawned, the
/// identifier the next object gets, and the keys held down.
pub struct Editor<K> {
    objects: Vec<Object<K>>,
    next_object_id: u32,
    keys_pressed: KeySet,
}

impl<K> Editor<K> {
    /// The objects, in the order they were spawned.
    pub closed spec fn spec_objects(self) -> Seq<Object<K>> {
        self.objects@
    }

    /// The identifier the next spawned object gets.
    pub closed spec fn next_id(self) -> u32 {
        self.next_object_id
    }

    /// The keys held down.
    pub closed spec fn keys(self) -> Set<Key> {
        self.keys_pressed@
    }

    #[verifier::type_invariant]
    spec fn inv(self) -> bool {
        ids_fresh_below(self.objects@, self.next_object_id)
    }

    /// An editor with no objects and no keys held.
    pub fn new() -> (r: Editor<K>)
        ensures
            r.spec_objects() == Seq::<Object<K>>::empty(),
            r.next_id() == 0,
            r.keys() == Set::<Key>::empty(),
    {
        Editor { objects: Vec::new(), next_object_id: 0, keys_pressed: KeySet::new() }
    }

    /// Places an object of the given kind under the next identifier.
    pub fn spawn(&mut self, object_kind: K)
        requires
            old(self).next_id() < u32::MAX,
        ensures
            ids_fresh_below(final(self).spec_objects(), final(self).next_id()),
            final(self).spec_objects() == old(self).spec_objects().push(
                Object { kind: object_kind, id: old(self).next_id() },
            ),
            final(self).next_id() == old(self).next_id() + 1,
            final(self).keys() == old(self).keys(),
    {
        proof { use_type_invariant(&*self); }
        let object = Object { kind: object_kind, id: self.next_object_id };
        self.next_object_id = self.next_object_id + 1;
        let mut objects: Vec<Object<K>> = Vec::new();
        std::mem::swap(&mut objects, &mut self.objects);
        objects.push(object);
        self.objects = objects;
    }

    /// Removes the object spawned under `id`; the others keep their order.
    pub fn despawn(&mut self, id: u32)
        requires
            exists|k: int| 0 <= k < old(self).spec_objects().len() && #[trigger] old(self).spec_objects()[k].id == id,
        ensures
            ids_fresh_below(final(self).spec_objects(), final(self).next_id()),
            exists|k: int|
                first_with_id(old(self).spec_objects(), id, k)
                    && final(self).spec_objects() == old(self).spec_objects().remove(k),
            final(self).next_id() == old(self).next_id(),
            final(self).keys() == old(self).keys(),
    {
        proof { use_type_invariant(&*self); }
        let mut index: usize = 0;
        while index < self.objects.len() && self.objects[index].id != id
            invariant
                index <= self.objects@.len(),
                forall|j: int| 0 <= j < index ==> #[trigger] self.objects@[j].id != id,
            decreases self.objects@.len() - index,
        {
            index = index + 1;
        }
        let ghost before = self.objects@;
        proof {
            if index == before.len() {
                let k = choose|k: int| 0 <= k < before.len() && #[trigger] before[k].id == id;
                assert(before[k].id != id);
            }
            assert(first_with_id(before, id, index as int));
        }
        let mut objects: Vec<Object<K>> = Vec::new();
        std::mem::swap(&mut objects, &mut self.objects);
        objects.remove(index);
        proof {
            let s = objects@;
            assert(s == before.remove(index as int));
            assert forall|a: int, b: int| 0 <= a < b < s.len() implies #[trigger] s[a].id != #[trigger] s[b].id by {
                let a0 = if a < index { a } else { a + 1 };
                let b0 = if b < index { b } else { b + 1 };
                assert(s[a] == before[a0] && s[b] == before[b0]);
            }
            assert forall|k: int| 0 <= k < s.len() implies #[trigger] s[k].id < self.next_object_id by {
                let k0 = if k < index { k } else { k + 1 };
                assert(s[k] == before[k0]);
            }
        }
        self.objects = objects;
    }

    /// Whether an object was spawned under `id` and is still there.
    pub fn has_object(&self, id: u32) -> (r: bool)
        ensures
            r == exists|k: int| 0 <= k < self.spec_objects().len() && #[trigger] self.spec_objects()[k].id == id,
    {
        let mut i: usize = 0;
        while i < self.objects.len()
            invariant
                i <= self.objects@.len(),
                forall|j: int| 0 <= j < i ==> #[trigger] self.objects@[j].id != id,
            decreases self.objects@.len() - i,
        {
            if self.objects[i].id == id {
                assert(self.spec_objects()[i as int].id == id);
                return true;
            }
            i = i + 1;
        }
        false
    }

    /// The identifier the next spawned object gets.
    pub fn next_object_id(&self) -> (r: u32)
        ensures
            r == self.next_id(),
    {
        self.next_object_id
    }

    /// The objects, in the order they were spawned.
    pub fn objects(&self) -> (r: &Vec<Object<K>>)
        ensures
            r@ == self.spec_objects(),
    {
        &self.objects
    }

    /// Applies an input event to the held keys.
    pub fn event(&mut self, event: Event)
        ensures
            final(self).spec_objects() == old(self).spec_objects(),
            final(self).next_id() == old(self).next_id(),
            match event {
                Event::KeyDown { key } => final(self).keys() == old(self).keys().insert(key),
                Event::KeyUp { key } => final(self).keys() == old(self).keys().remove(key),
            },
    {
        proof { use_type_invariant(&*self); }
        let mut keys = KeySet::new();
        std::mem::swap(&mut keys, &mut self.keys_pressed);
        keys.apply(event);
        self.keys_pressed = keys;
    }

    /// The direction the camera moves sideways this frame: `1` while Left is
    /// held, else `-1` while Right is held, else `0`.
    pub fn camera_direction(&self) -> (r: i8)
        ensures
            r == (if self.keys().contains(Key::Left) {
                1i8
            } else if self.keys().contains(Key::Right) {
                -1i8
            } else {
                0i8
            }),
    {
        if self.keys_pressed.contains(&Key::Left) {
            1
        } else if self.keys_pressed.contains(&Key::Right) {
            -1
        } else {
            0
        }
    }
}

/// Spawning an object and then despawning the identifier it got gives back
/// the objects there were before.
pub proof fn lemma_spawn_then_despawn<K>(objects: Seq<Object<K>>, next_id: u32, kind: K, k: int)
    requires
        ids_fresh_below(objects, next_id),
        first_with_id(objects.push(Object { kind, id: next_id }), next_id, k),
    ensures
        objects.push(Object { kind, id: next_id }).remove(k) == objects,
{
    let s = objects.push(Object { kind, id: next_id });
    if k < objects.len() {
        assert(s[k] == objects[k]);
        assert(objects[k].id < next_id);
    }
    assert(s.remove(k) =~= objects);
}

/// Builds the editor's starting state: an editor with each given object
/// spawned in turn, so the `i`-th gets identifier `i`.
pub fn editor_main<K>(objects: Vec<K>) -> (r: Editor<K>)
    requires
        objects.len() < u32::MAX,
    ensures
        r.spec_objects().len() == objects.len(),
        forall|i: int|
            0 <= i < objects.len() ==> #[trigger] r.spec_objects()[i] == (Object { kind: objects@[i], id: i as u32 }),
        r.next_id() == objects.len(),
        r.keys() == Set::<Key>::empty(),
{
    let mut editor = Editor::new();
    let ghost all = objects@;
    let mut objects = objects;
    let ghost n = all.len();
    while objects.len() > 0
        invariant
            n == all.len(),
            n < u32::MAX,
            editor.spec_objects().len() + objects@.len() == n,
            editor.next_id() == editor.spec_objects().len(),
            forall|i: int| 0 <= i < editor.spec_objects().len() ==> #[trigger] editor.spec_objects()[i] == (Object { kind: all[i], id: i as u32 }),
            forall|j: int| 0 <= j < objects@.len() ==> #[trigger] objects@[j] == all[editor.spec_objects().len() + j],
            editor.keys() == Set::<Key>::empty(),
        decreases objects@.len(),
    {
        let ghost before = editor.spec_objects();
        let object = objects.remove(0);
        proof {
            assert(object == all[before.len() as int]);
        }
        editor.spawn(object);
        proof {
            assert forall|i: int| 0 <= i < editor.spec_objects().len() implies #[trigger] editor.spec_objects()[i] == (Object { kind: all[i], id: i as u32 }) by {
                if i < before.len() {
                    assert(editor.spec_objects()[i] == before[i]);
                }
            }
        }
    }
    editor
}

} // verus!
