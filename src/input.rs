use vstd::prelude::*;

verus! {

/// A keyboard key, by its numeric key code.
pub type KeyCode = u32;

/// Which keys are held, and which went down since the end of the last tick.
#[derive(Debug)]
pub struct Keyboard {
    just_pressed: Vec<KeyCode>,
    held: Vec<KeyCode>,
}

impl Keyboard {
    /// The keys that went down since the last `update`.
    pub closed spec fn just_pressed_set(&self) -> Set<KeyCode> {
        self.just_pressed@.to_set()
    }

    /// The keys held down.
    pub closed spec fn held_set(&self) -> Set<KeyCode> {
        self.held@.to_set()
    }

    /// No key pressed or held.
    pub fn new() -> (r: Keyboard)
        ensures
            r.just_pressed_set() == Set::<KeyCode>::empty(),
            r.held_set() == Set::<KeyCode>::empty(),
    {
        let r = Keyboard { just_pressed: Vec::new(), held: Vec::new() };
        assert(r.just_pressed_set() =~= Set::<KeyCode>::empty());
        assert(r.held_set() =~= Set::<KeyCode>::empty());
        r
    }

    pub fn was_just_pressed(&self, k: KeyCode) -> (r: bool)
        ensures
            r == self.just_pressed_set().contains(k),
    {
        contains_key(&self.just_pressed, k)
    }

    pub fn is_pressed(&self, k: KeyCode) -> (r: bool)
        ensures
            r == self.held_set().contains(k),
    {
        contains_key(&self.held, k)
    }

    /// The keys that went down since the last `update`, each once, in the
    /// order they went down.
    pub fn get_just_pressed(&self) -> (r: Vec<KeyCode>)
        ensures
            r@.to_set() == self.just_pressed_set(),
    {
        self.just_pressed.clone()
    }

    /// Records a key going down (`pressed`) or up.
    pub fn toggle_key(&mut self, k: KeyCode, pressed: bool)
        ensures
            final(self).just_pressed_set() == if pressed {
                old(self).just_pressed_set().insert(k)
            } else {
                old(self).just_pressed_set()
            },
            final(self).held_set() == if pressed {
                old(self).held_set().insert(k)
            } else {
                old(self).held_set().remove(k)
            },
    {
        if pressed {
            if !contains_key(&self.just_pressed, k) {
                proof {
                    self.just_pressed@.lemma_push_to_set_commute(k);
                }
                self.just_pressed.push(k);
            }
            if !contains_key(&self.held, k) {
                proof {
                    self.held@.lemma_push_to_set_commute(k);
                }
                self.held.push(k);
            }
            proof {
                assert(self.just_pressed_set() =~= old(self).just_pressed_set().insert(k));
                assert(self.held_set() =~= old(self).held_set().insert(k));
            }
        } else {
            let mut kept: Vec<KeyCode> = Vec::new();
            let mut i: usize = 0;
            while i < self.held.len()
                invariant
                    i <= self.held@.len(),
                    self.held@ == old(self).held@,
                    self.just_pressed@ == old(self).just_pressed@,
                    kept@.to_set() == self.held@.take(i as int).to_set().remove(k),
                decreases self.held@.len() - i,
            {
                let h = self.held[i];
                let ghost before = kept@;
                if h != k {
                    kept.push(h);
                }
                proof {
                    assert(self.held@.take(i + 1) =~= self.held@.take(i as int).push(h));
                    assert(kept@.to_set() =~= self.held@.take(i + 1).to_set().remove(k)) by {
                        before.lemma_push_to_set_commute(h);
                        self.held@.take(i as int).lemma_push_to_set_commute(h);
                    }
                }
                i += 1;
            }
            assert(self.held@.take(i as int) =~= self.held@);
            self.held = kept;
        }
    }

    /// Forgets which keys went down; run at the end of every tick.
    pub fn update(&mut self)
        ensures
            final(self).just_pressed_set() == Set::<KeyCode>::empty(),
            final(self).held_set() == old(self).held_set(),
    {
        self.just_pressed.clear();
        assert(self.just_pressed_set() =~= Set::<KeyCode>::empty());
    }
}

fn contains_key(s: &Vec<KeyCode>, k: KeyCode) -> (r: bool)
    ensures
        r == s@.to_set().contains(k),
{
    let mut i: usize = 0;
    while i < s.len()
        invariant
            i <= s@.len(),
            forall|j: int| 0 <= j < i ==> s@[j] != k,
        decreases s@.len() - i,
    {
        if s[i] == k {
            assert(s@.contains(k) ==> s@.to_set().contains(k));
            assert(s@[i as int] == k);
            return true;
        }
        i += 1;
    }
    assert(!s@.contains(k));
    false
}

} // verus!
