use vstd::prelude::*;
use crate::atom::{Atom, AtomSpec};
use crate::text::str_eq;

verus! {

/// One scope frame: the local bindings and an optional parent frame.
struct Frame {
    parent: Option<usize>,
    entries: Vec<(String, Atom)>,
}

/// The model of one scope frame: a name-to-value map and the index of the
/// parent frame, if any.
pub struct FrameSpec {
    pub parent: Option<int>,
    pub bindings: Map<Seq<char>, AtomSpec>,
}

/// A chain of name-to-value scopes.  Frames live in one arena and refer to
/// their parent by index, which preserves the sharing of a parent between
/// any number of child frames; a frame's parent always has a smaller index.
/// Frame 0 is the root scope of a session.
pub struct Environment {
    frames: Vec<Frame>,
}

/// The bindings of one frame, read off its entry list; a later entry for the
/// same name overrides an earlier one, though `set` keeps names unique.
spec fn entries_map(entries: Seq<(String, Atom)>) -> Map<Seq<char>, AtomSpec>
    decreases entries,
{
    if entries.len() == 0 {
        Map::empty()
    } else {
        entries_map(entries.drop_last()).insert(entries.last().0@, entries.last().1@)
    }
}

spec fn keys_unique(entries: Seq<(String, Atom)>) -> bool {
    forall|i: int, j: int|
        0 <= i < j < entries.len() ==> entries[i].0@ != entries[j].0@
}

impl View for Frame {
    type V = FrameSpec;

    closed spec fn view(&self) -> FrameSpec {
        FrameSpec {
            parent: (match self.parent {
                Option::Some(p) => Some(p as int),
                Option::None => None,
            }),
            bindings: entries_map(self.entries@),
        }
    }
}

/// The model of the frame arena, frame by frame.
spec fn view_frames(v: Seq<Frame>) -> Seq<FrameSpec>
    decreases v,
{
    if v.len() == 0 {
        Seq::empty()
    } else {
        view_frames(v.subrange(0, v.len() - 1)).push(v[v.len() - 1]@)
    }
}

broadcast proof fn lemma_view_frames(v: Seq<Frame>)
    ensures
        #![trigger view_frames(v)]
        view_frames(v).len() == v.len(),
        forall|i: int| 0 <= i < v.len() ==> view_frames(v)[i] == v[i]@,
    decreases v,
{
    if v.len() > 0 {
        let pre = v.subrange(0, v.len() - 1);
        lemma_view_frames(pre);
        assert forall|i: int| 0 <= i < v.len() implies view_frames(v)[i] == v[i]@ by {
            if i < v.len() - 1 {
                assert(view_frames(v)[i] == view_frames(pre)[i]);
                assert(pre[i] == v[i]);
            }
        }
    }
}

/// Well-formedness of a scope chain: there is a root frame, and every
/// frame's parent comes earlier in the arena, so parent chains end.
pub open spec fn env_wf(env: Seq<FrameSpec>) -> bool {
    &&& env.len() >= 1
    &&& forall|i: int|
        0 <= i < env.len() ==> (match #[trigger] env[i].parent {
            Option::Some(p) => 0 <= p < i,
            Option::None => true,
        })
}

/// The value bound to `key`, looking in `frame` first and then walking the
/// parent chain outward; `None` when the whole chain has no binding.
pub open spec fn lookup_spec(env: Seq<FrameSpec>, frame: int, key: Seq<char>) -> Option<AtomSpec>
    decreases (if frame >= 0 { frame } else { 0int }),
{
    if frame < 0 || frame >= env.len() {
        None
    } else if env[frame].bindings.contains_key(key) {
        Some(env[frame].bindings[key])
    } else {
        match env[frame].parent {
            Option::Some(p) => (if 0 <= p < frame {
                lookup_spec(env, p, key)
            } else {
                None
            }),
            Option::None => None,
        }
    }
}

impl View for Environment {
    type V = Seq<FrameSpec>;

    closed spec fn view(&self) -> Seq<FrameSpec> {
        view_frames(self.frames@)
    }
}

proof fn lemma_entries_map_found(entries: Seq<(String, Atom)>, j: int)
    requires
        keys_unique(entries),
        0 <= j < entries.len(),
    ensures
        entries_map(entries).contains_key(entries[j].0@),
        entries_map(entries)[entries[j].0@] == entries[j].1@,
    decreases entries,
{
    if j == entries.len() - 1 {
    } else {
        lemma_entries_map_found(entries.drop_last(), j);
        assert(entries.drop_last()[j] == entries[j]);
        assert(entries[j].0@ != entries.last().0@);
    }
}

proof fn lemma_entries_map_absent(entries: Seq<(String, Atom)>, key: Seq<char>)
    requires
        forall|j: int| 0 <= j < entries.len() ==> entries[j].0@ != key,
    ensures
        !entries_map(entries).contains_key(key),
    decreases entries,
{
    if entries.len() > 0 {
        lemma_entries_map_absent(entries.drop_last(), key);
    }
}

impl Environment {
    /// The private invariant: every frame's names are pairwise distinct.
    pub closed spec fn inv(&self) -> bool {
        forall|i: int| 0 <= i < self.frames@.len() ==> keys_unique(#[trigger] self.frames@[i].entries@)
    }

    /// A fresh environment holding only the empty root scope.
    pub fn new() -> (r: Environment)
        ensures
            r.inv(),
            env_wf(r@),
            r@.len() == 1,
            r@[0].parent is None,
            r@[0].bindings == Map::<Seq<char>, AtomSpec>::empty(),
    {
        let mut frames: Vec<Frame> = Vec::new();
        frames.push(Frame { parent: None, entries: Vec::new() });
        let r = Environment { frames };
        proof {
            lemma_view_frames(r.frames@);
        }
        r
    }

    /// Creates a child frame whose parent is `parent` and returns its index.
    pub fn extend(&mut self, parent: usize) -> (child: usize)
        requires
            old(self).inv(),
            parent < old(self)@.len(),
        ensures
            final(self).inv(),
            child == old(self)@.len(),
            final(self)@ == old(self)@.push(
                (FrameSpec { parent: Some(parent as int), bindings: Map::empty() }),
            ),
            env_wf(old(self)@) ==> env_wf(final(self)@),
    {
        proof {
            lemma_view_frames(self.frames@);
        }
        let child = self.frames.len();
        self.frames.push(Frame { parent: Some(parent), entries: Vec::new() });
        proof {
            lemma_view_frames(self.frames@);
            assert(self.frames@.drop_last() =~= old(self).frames@);
            assert(self@ =~= old(self)@.push(
                FrameSpec { parent: Some(parent as int), bindings: Map::empty() },
            ));
            assert forall|i: int|
                0 <= i < self.frames@.len() implies keys_unique(
                #[trigger] self.frames@[i].entries@,
            ) by {
                if i < self.frames@.len() - 1 {
                    assert(self.frames@[i] == old(self).frames@[i]);
                }
            }
        }
        child
    }

    /// Looks `key` up, in `frame` first, then outward along the parent
    /// chain; returns a copy of the nearest binding's value.
    pub fn get(&self, frame: usize, key: &str) -> (r: Option<Atom>)
        requires
            self.inv(),
            env_wf(self@),
            frame < self@.len(),
        ensures
            (match r {
                Option::Some(a) => lookup_spec(self@, frame as int, key@) == Some(a@),
                Option::None => lookup_spec(self@, frame as int, key@) is None,
            }),
    {
        proof {
            lemma_view_frames(self.frames@);
        }
        let mut cur: usize = frame;
        loop
            invariant
                self.inv(),
                env_wf(self@),
                cur < self@.len(),
                self@.len() == self.frames@.len(),
                lookup_spec(self@, frame as int, key@) == lookup_spec(self@, cur as int, key@),
            decreases cur,
        {
            proof {
                lemma_view_frames(self.frames@);
            }
            let fr = &self.frames[cur];
            let n = fr.entries.len();
            let mut j: usize = 0;
            while j < n
                invariant
                    j <= n,
                    n == fr.entries@.len(),
                    self.inv(),
                    env_wf(self@),
                    fr == self.frames@[cur as int],
                    cur < self.frames@.len(),
                    self@.len() == self.frames@.len(),
                    cur < self@.len(),
                    lookup_spec(self@, frame as int, key@) == lookup_spec(self@, cur as int, key@),
                    forall|t: int| 0 <= t < j ==> fr.entries@[t].0@ != key@,
                decreases n - j,
            {
                let pair = &fr.entries[j];
                if str_eq(pair.0.as_str(), key) {
                    proof {
                        lemma_view_frames(self.frames@);
                        lemma_entries_map_found(fr.entries@, j as int);
                    }
                    return Some(pair.1.clone());
                }
                j = j + 1;
            }
            proof {
                lemma_view_frames(self.frames@);
                lemma_entries_map_absent(fr.entries@, key@);
            }
            match fr.parent {
                Option::Some(p) => {
                    cur = p;
                },
                Option::None => {
                    return None;
                },
            }
        }
    }

    /// Binds `key` to `value` in exactly the frame `frame`, overwriting a
    /// local binding of the same name and never touching any other frame.
    pub fn set(&mut self, frame: usize, key: &str, value: Atom)
        requires
            old(self).inv(),
            frame < old(self)@.len(),
        ensures
            final(self).inv(),
            final(self)@ == old(self)@.update(
                frame as int,
                (FrameSpec {
                    parent: old(self)@[frame as int].parent,
                    bindings: old(self)@[frame as int].bindings.insert(key@, value@),
                }),
            ),
            env_wf(old(self)@) ==> env_wf(final(self)@),
    {
        proof {
            lemma_view_frames(self.frames@);
        }
        let ghost old_frames = self.frames@;
        let ghost target = old(self)@.update(
            frame as int,
            FrameSpec {
                parent: old(self)@[frame as int].parent,
                bindings: old(self)@[frame as int].bindings.insert(key@, value@),
            },
        );
        let idx = find_local(&self.frames[frame].entries, key);
        let ghost old_entries = self.frames@[frame as int].entries@;
        match idx {
            Option::Some(j) => {
                let owned = key.to_owned();
                let fr = &mut self.frames[frame];
                fr.entries[j] = (owned, value);
                proof {
                    lemma_update_entry(old_entries, j as int, key@, value@, fr.entries@);
                }
            },
            Option::None => {
                let owned = key.to_owned();
                let fr = &mut self.frames[frame];
                fr.entries.push((owned, value));
                proof {
                    lemma_entries_map_absent(old_entries, key@);
                    assert(fr.entries@.drop_last() =~= old_entries);
                    assert(keys_unique(fr.entries@));
                }
            },
        }
        proof {
            lemma_view_frames(old_frames);
            lemma_view_frames(self.frames@);
            assert(self.frames@ =~= old_frames.update(frame as int, self.frames@[frame as int]));
            assert(self@ =~~= target);
            assert forall|i: int|
                0 <= i < self.frames@.len() implies keys_unique(
                #[trigger] self.frames@[i].entries@,
            ) by {
                if i != frame {
                    assert(self.frames@[i] == old_frames[i]);
                }
            }
        }
    }
}

/// The position of the local entry whose name is `key`, if there is one.
fn find_local(entries: &Vec<(String, Atom)>, key: &str) -> (r: Option<usize>)
    ensures
        (match r {
            Option::Some(j) => j < entries@.len() && entries@[j as int].0@ == key@,
            Option::None => forall|t: int| 0 <= t < entries@.len() ==> entries@[t].0@ != key@,
        }),
{
    let mut j: usize = 0;
    while j < entries.len()
        invariant
            j <= entries@.len(),
            forall|t: int| 0 <= t < j ==> entries@[t].0@ != key@,
        decreases entries@.len() - j,
    {
        let pair = &entries[j];
        if str_eq(pair.0.as_str(), key) {
            return Some(j);
        }
        j = j + 1;
    }
    None
}

/// Replacing the entry at `j` by one with the same name's text installs
/// `value` in the frame's map and keeps the names pairwise distinct.
proof fn lemma_update_entry(
    old_entries: Seq<(String, Atom)>,
    j: int,
    key: Seq<char>,
    value: AtomSpec,
    new_entries: Seq<(String, Atom)>,
)
    requires
        keys_unique(old_entries),
        0 <= j < old_entries.len(),
        old_entries[j].0@ == key,
        new_entries.len() == old_entries.len(),
        new_entries[j].0@ == key,
        new_entries[j].1@ == value,
        forall|t: int| 0 <= t < old_entries.len() && t != j ==> new_entries[t] == old_entries[t],
    ensures
        keys_unique(new_entries),
        entries_map(new_entries) == entries_map(old_entries).insert(key, value),
    decreases old_entries,
{
    assert(keys_unique(new_entries));
    if j == old_entries.len() - 1 {
        assert(new_entries.drop_last() =~= old_entries.drop_last());
        assert(entries_map(new_entries) =~= entries_map(old_entries).insert(key, value));
    } else {
        lemma_update_entry(
            old_entries.drop_last(),
            j,
            key,
            value,
            new_entries.drop_last(),
        );
        assert(new_entries.last() == old_entries.last());
        assert(old_entries[j].0@ != old_entries.last().0@);
        assert(entries_map(new_entries) =~= entries_map(old_entries).insert(key, value));
    }
}

} // verus!
