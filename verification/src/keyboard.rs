use vstd::prelude::*;

verus! {

/// The 16-key input device: one entry per hexadecimal key 0x0-0xF.
/// An entry is nonzero exactly when the key is currently pressed.
pub struct Keyboard {
    pub keys: Vec<u8>,
}

impl Keyboard {
    /// The key table is well formed when it has one entry per key.
    pub open spec fn wf(&self) -> bool {
        self.keys@.len() == 16
    }

    /// All sixteen keys start released.
    pub fn new() -> (kb: Keyboard)
        ensures
            kb.wf(),
            kb.keys@ == Seq::new(16, |k: int| 0u8),
    {
        let mut keys: Vec<u8> = Vec::new();
        let mut i: usize = 0;
        while i < 16
            invariant
                i <= 16,
                keys@.len() == i,
                forall|k: int| 0 <= k < i ==> keys@[k] == 0u8,
            decreases 16 - i,
        {
            keys.push(0u8);
            i = i + 1;
        }
        assert(keys@ =~= Seq::new(16, |k: int| 0u8));
        Keyboard { keys }
    }

    /// Releases every key.
    pub fn reset_keys(&mut self)
        requires
            old(self).wf(),
        ensures
            final(self).wf(),
            final(self).keys@ == Seq::new(16, |k: int| 0u8),
    {
        let mut i: usize = 0;
        while i < 16
            invariant
                i <= 16,
                self.keys@.len() == 16,
                forall|k: int| 0 <= k < i ==> self.keys@[k] == 0u8,
            decreases 16 - i,
        {
            self.keys[i] = 0u8;
            i = i + 1;
        }
        assert(self.keys@ =~= Seq::new(16, |k: int| 0u8));
    }

    /// Marks `key` as pressed.
    pub fn set_key(&mut self, key: u8)
        requires
            old(self).wf(),
            key < 16,
        ensures
            final(self).wf(),
            final(self).keys@ == old(self).keys@.update(key as int, 1u8),
    {
        self.keys[key as usize] = 1u8;
    }

    /// Marks `key` as released.
    pub fn unset_key(&mut self, key: u8)
        requires
            old(self).wf(),
            key < 16,
        ensures
            final(self).wf(),
            final(self).keys@ == old(self).keys@.update(key as int, 0u8),
    {
        self.keys[key as usize] = 0u8;
    }

    /// Flips the pressed state of `key`.
    pub fn toggle_key(&mut self, key: u8)
        requires
            old(self).wf(),
            key < 16,
        ensures
            final(self).wf(),
            final(self).keys@ == old(self).keys@.update(
                key as int,
                if old(self).keys@[key as int] == 0 { 1u8 } else { 0u8 },
            ),
    {
        if self.keys[key as usize] == 0 {
            self.keys[key as usize] = 1u8;
        } else {
            self.keys[key as usize] = 0u8;
        }
    }

    /// Whether `key` is currently pressed.
    pub fn key_is_pressed(&self, key: u8) -> (pressed: bool)
        requires
            self.wf(),
            key < 16,
        ensures
            pressed == (self.keys@[key as int] != 0),
    {
        self.keys[key as usize] != 0
    }

    /// Read-back access to the whole key table.
    pub fn get_internal_array(&self) -> (keys: &Vec<u8>)
        ensures
            keys@ == self.keys@,
    {
        &self.keys
    }
}

} // verus!
