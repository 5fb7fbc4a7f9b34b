use vstd::prelude::*;

verus! {

/// Number of keys of the keypad.
pub const KEY_COUNT: usize = 0x10;

/// The lowest key at or after `from` that is down, if there is one.
pub open spec fn first_down_from(keys: Seq<bool>, from: int) -> Option<int>
    decreases keys.len() - from,
{
    if from < 0 || from >= keys.len() {
        None
    } else if keys[from] {
        Some(from)
    } else {
        first_down_from(keys, from + 1)
    }
}

/// The lowest key that is down, if there is one.
pub open spec fn first_down(keys: Seq<bool>) -> Option<int> {
    first_down_from(keys, 0)
}

/// What `first_down` finds: the key it names is down and none below it
/// is; it names none only when no key is down.
pub proof fn lemma_first_down(keys: Seq<bool>)
    ensures
        match first_down(keys) {
            Some(k) => 0 <= k < keys.len() && keys[k] && forall|j: int| 0 <= j < k ==> !keys[j],
            None => forall|j: int| 0 <= j < keys.len() ==> !keys[j],
        },
{
    lemma_first_down_from(keys, 0);
}

proof fn lemma_first_down_from(keys: Seq<bool>, from: int)
    requires
        0 <= from,
    ensures
        match first_down_from(keys, from) {
            Some(k) => from <= k < keys.len() && keys[k] && forall|j: int|
                from <= j < k ==> !keys[j],
            None => forall|j: int| from <= j < keys.len() ==> !keys[j],
        },
    decreases keys.len() - from,
{
    if from < keys.len() && !keys[from] {
        lemma_first_down_from(keys, from + 1);
    }
}

/// Sixteen keys, each up or down.
#[derive(Debug)]
pub struct Keyboard {
    /// `true` for each key that is down.
    pub states: [bool; KEY_COUNT],
}

impl View for Keyboard {
    type V = Seq<bool>;

    open spec fn view(&self) -> Seq<bool> {
        self.states@
    }
}

impl Keyboard {
    /// A keypad with every key up.
    pub fn new() -> (kbd: Self)
        ensures
            kbd@ == Seq::new(KEY_COUNT as nat, |k: int| false),
    {
        Keyboard { states: [false; KEY_COUNT] }
    }

    /// Flips the state of key `idx`.
    pub fn switch(&mut self, idx: usize)
        requires
            idx < KEY_COUNT,
        ensures
            final(self)@ == old(self)@.update(idx as int, !old(self)@[idx as int]),
    {
        self.states[idx] = !self.states[idx];
    }

    /// Whether key `idx` is down.
    pub fn get(&self, idx: usize) -> (down: bool)
        requires
            idx < KEY_COUNT,
        ensures
            down == self@[idx as int],
    {
        self.states[idx]
    }

    /// The lowest key that is down, or `None` when every key is up.
    pub fn down_key(&self) -> (key: Option<usize>)
        ensures
            match key {
                Some(k) => first_down(self@) == Some(k as int),
                None => first_down(self@) is None,
            },
            match key {
                Some(k) => k < KEY_COUNT && self@[k as int] && forall|j: int|
                    0 <= j < k ==> !self@[j],
                None => forall|j: int| 0 <= j < KEY_COUNT ==> !self@[j],
            },
    {
        let mut k: usize = 0;
        while k < KEY_COUNT
            invariant
                k <= KEY_COUNT,
                forall|j: int| 0 <= j < k ==> !self@[j],
            decreases KEY_COUNT - k,
        {
            if self.states[k] {
                proof {
                    lemma_first_down(self@);
                }
                return Some(k);
            }
            k += 1;
        }
        proof {
            lemma_first_down(self@);
        }
        None
    }
}

impl Default for Keyboard {
    fn default() -> (kbd: Self)
        ensures
            kbd@ == Seq::new(KEY_COUNT as nat, |k: int| false),
    {
        Self::new()
    }
}

} // verus!
