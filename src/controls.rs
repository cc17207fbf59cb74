//! Which keys and mouse buttons are held down. A key is known by its code.

use vstd::prelude::*;

verus! {

pub ghost struct ControlModel {
    pub pressed: Set<u32>,
    pub clicked: Set<u32>,
}

/// The keys and mouse buttons held down, each listed once.
#[derive(Clone, Debug)]
pub struct ControlState {
    pressed: Vec<u32>,
    clicked: Vec<u32>,
}

impl View for ControlState {
    type V = ControlModel;

    closed spec fn view(&self) -> ControlModel {
        ControlModel { pressed: self.pressed@.to_set(), clicked: self.clicked@.to_set() }
    }
}

fn holds(v: &Vec<u32>, k: u32) -> (r: bool)
    ensures
        r == v@.to_set().contains(k),
{
    let mut i: usize = 0;
    while i < v.len()
        invariant
            i <= v.len(),
            forall|j: int| 0 <= j < i ==> v@[j] != k,
        decreases v.len() - i,
    {
        if v[i] == k {
            assert(v@.contains(k));
            return true;
        }
        i = i + 1;
    }
    false
}

fn put_in(v: &mut Vec<u32>, k: u32)
    requires
        old(v)@.no_duplicates(),
    ensures
        final(v)@.no_duplicates(),
        final(v)@.to_set() == old(v)@.to_set().insert(k),
{
    if !holds(v, k) {
        v.push(k);
        assert(v@.to_set() =~= old(v)@.to_set().insert(k)) by {
            assert forall|x: u32| v@.contains(x) implies old(v)@.contains(x) || x == k by {
                let j = choose|j: int| 0 <= j < v@.len() && v@[j] == x;
                if j < old(v)@.len() {
                    assert(old(v)@[j] == x);
                }
            }
            assert(v@[old(v)@.len() as int] == k);
            assert forall|x: u32| old(v)@.contains(x) implies v@.contains(x) by {
                let j = choose|j: int| 0 <= j < old(v)@.len() && old(v)@[j] == x;
                assert(v@[j] == x);
            }
        }
    } else {
        assert(old(v)@.to_set().insert(k) =~= old(v)@.to_set());
    }
}

fn take_out(v: &mut Vec<u32>, k: u32)
    requires
        old(v)@.no_duplicates(),
    ensures
        final(v)@.no_duplicates(),
        final(v)@.to_set() == old(v)@.to_set().remove(k),
{
    let mut i: usize = 0;
    while i < v.len()
        invariant
            i <= v.len(),
            v@ == old(v)@,
            old(v)@.no_duplicates(),
            forall|j: int| 0 <= j < i ==> v@[j] != k,
        decreases v.len() - i,
    {
        if v[i] == k {
            let ghost s = v@;
            assert(s[i as int] == k);
            v.remove(i);
            assert(v@ == s.remove(i as int));
            assert(v@.to_set() =~= s.to_set().remove(k)) by {
                assert forall|x: u32| v@.contains(x) implies s.contains(x) && x != k by {
                    let j = choose|j: int| 0 <= j < v@.len() && v@[j] == x;
                    if j < i {
                        assert(s[j] == x);
                    } else {
                        assert(s[j + 1] == x);
                        assert(j + 1 != i);
                    }
                }
                assert forall|x: u32| s.contains(x) && x != k implies v@.contains(x) by {
                    let j = choose|j: int| 0 <= j < s.len() && s[j] == x;
                    if j < i {
                        assert(v@[j] == x);
                    } else {
                        assert(j != i);
                        assert(v@[j - 1] == x);
                    }
                }
            }
            let ghost t = v@;
            assert(t.no_duplicates()) by {
                assert forall|a: int, b: int|
                    0 <= a < t.len() && 0 <= b < t.len() && a != b implies t[a] != t[b] by {
                    let a2 = if a < i { a } else { a + 1 };
                    let b2 = if b < i { b } else { b + 1 };
                    assert(t[a] == s[a2]);
                    assert(t[b] == s[b2]);
                }
            }
            return;
        }
        i = i + 1;
    }
    assert(!old(v)@.contains(k));
    assert(old(v)@.to_set().remove(k) =~= old(v)@.to_set());
}

impl ControlState {
    /// Tells that each code is listed once.
    pub closed spec fn wf(&self) -> bool {
        self.pressed@.no_duplicates() && self.clicked@.no_duplicates()
    }

    /// Nothing held down.
    pub fn new() -> (r: ControlState)
        ensures
            r.wf(),
            r@.pressed == Set::<u32>::empty(),
            r@.clicked == Set::<u32>::empty(),
    {
        let r = ControlState { pressed: Vec::new(), clicked: Vec::new() };
        assert(r@.pressed =~= Set::<u32>::empty());
        assert(r@.clicked =~= Set::<u32>::empty());
        r
    }

    pub fn is_key_pressed(&self, key: u32) -> (r: bool)
        ensures
            r == self@.pressed.contains(key),
    {
        holds(&self.pressed, key)
    }

    pub fn key_press(&mut self, key: u32)
        requires
            old(self).wf(),
        ensures
            final(self).wf(),
            final(self)@.pressed == old(self)@.pressed.insert(key),
            final(self)@.clicked == old(self)@.clicked,
    {
        put_in(&mut self.pressed, key);
    }

    pub fn key_release(&mut self, key: u32)
        requires
            old(self).wf(),
        ensures
            final(self).wf(),
            final(self)@.pressed == old(self)@.pressed.remove(key),
            final(self)@.clicked == old(self)@.clicked,
    {
        take_out(&mut self.pressed, key);
    }

    pub fn is_mouse_clicked(&self, button: u32) -> (r: bool)
        ensures
            r == self@.clicked.contains(button),
    {
        holds(&self.clicked, button)
    }

    pub fn mouse_click(&mut self, button: u32)
        requires
            old(self).wf(),
        ensures
            final(self).wf(),
            final(self)@.clicked == old(self)@.clicked.insert(button),
            final(self)@.pressed == old(self)@.pressed,
    {
        put_in(&mut self.clicked, button);
    }

    pub fn mouse_release(&mut self, button: u32)
        requires
            old(self).wf(),
        ensures
            final(self).wf(),
            final(self)@.clicked == old(self)@.clicked.remove(button),
            final(self)@.pressed == old(self)@.pressed,
    {
        take_out(&mut self.clicked, button);
    }
}

} // verus!
