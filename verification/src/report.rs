//! The boot-keyboard report: one modifier byte and six key slots.

use vstd::prelude::*;
use crate::error::Fault;
use crate::keycode::UsbKeycode;

verus! {

/// The bit that a modifier key sets in the modifier byte: control, shift,
/// alt and gui take the bits 0 to 3, the left and the right key of a pair
/// alike. Any other key has no bit.
pub open spec fn modifier_mask(key: UsbKeycode) -> u8 {
    if key.data == 224 || key.data == 228 {
        1
    } else if key.data == 225 || key.data == 229 {
        2
    } else if key.data == 226 || key.data == 230 {
        4
    } else if key.data == 227 || key.data == 231 {
        8
    } else {
        0
    }
}

/// The first position at or after `start` whose slot is empty, or the number
/// of slots where every one of them is taken.
pub open spec fn first_free(slots: Seq<UsbKeycode>, start: int) -> int
    decreases slots.len() - start,
{
    if start >= slots.len() {
        slots.len() as int
    } else if slots[start].data == 0 {
        start
    } else {
        first_free(slots, start + 1)
    }
}

/// The keys of `keys`, in order, that take a slot: neither a modifier nor
/// the null key.
pub open spec fn slot_keys(keys: Seq<UsbKeycode>) -> Seq<UsbKeycode>
    decreases keys.len(),
{
    if keys.len() == 0 {
        Seq::empty()
    } else if !keys.last().is_modifier() && keys.last().data != 0 {
        slot_keys(keys.drop_last()).push(keys.last())
    } else {
        slot_keys(keys.drop_last())
    }
}

/// The modifier byte that `keys` add up to.
pub open spec fn mask_of(keys: Seq<UsbKeycode>) -> u8
    decreases keys.len(),
{
    if keys.len() == 0 {
        0
    } else if keys.last().is_modifier() {
        mask_of(keys.drop_last()) | modifier_mask(keys.last())
    } else {
        mask_of(keys.drop_last())
    }
}

/// Six slots that hold `keys` in front and nothing behind them.
pub open spec fn padded(keys: Seq<UsbKeycode>) -> Seq<UsbKeycode> {
    Seq::new(
        6,
        |i: int|
            if i < keys.len() {
                keys[i]
            } else {
                UsbKeycode::null()
            },
    )
}

/// A report as a mathematical value.
#[verifier::ext_equal]
pub struct Frame {
    /// The modifier byte.
    pub modifiers: u8,
    /// The key slots.
    pub slots: Seq<UsbKeycode>,
}

impl Frame {
    /// The report of a keyboard at rest.
    pub open spec fn empty() -> Frame {
        Frame { modifiers: 0, slots: padded(Seq::empty()) }
    }

    /// Six slots, none of which holds a modifier.
    pub open spec fn wf(self) -> bool {
        &&& self.slots.len() == 6
        &&& forall|i: int| 0 <= i < 6 ==> !(#[trigger] self.slots[i]).is_modifier()
    }

    /// Sets the bit of the modifier `m`; any other key is refused.
    pub open spec fn set_modifier(self, m: UsbKeycode) -> Result<Frame, Fault> {
        if m.is_modifier() {
            Ok(Frame { modifiers: self.modifiers | modifier_mask(m), slots: self.slots })
        } else {
            Err(Fault::UnrecognizedModifier)
        }
    }

    /// Adds a key: a modifier sets its bit, any other key takes the first
    /// empty slot, and is refused where no slot is empty.
    pub open spec fn add_key(self, key: UsbKeycode) -> Result<Frame, Fault> {
        if key.is_modifier() {
            self.set_modifier(key)
        } else {
            let i = first_free(self.slots, 0);
            if i < self.slots.len() {
                Ok(Frame { modifiers: self.modifiers, slots: self.slots.update(i, key) })
            } else {
                Err(Fault::SixKeyOverflow)
            }
        }
    }

    /// The report that holds `keys`, added one by one to an empty report;
    /// the first key that is refused fails the whole report.
    pub open spec fn build(keys: Seq<UsbKeycode>) -> Result<Frame, Fault>
        decreases keys.len(),
    {
        if keys.len() == 0 {
            Ok(Frame::empty())
        } else {
            match Frame::build(keys.drop_last()) {
                Ok(frame) => frame.add_key(keys.last()),
                Err(fault) => Err(fault),
            }
        }
    }

    /// The eight bytes on the wire: the modifier byte, a zero byte, and the
    /// codes in the six slots.
    pub open spec fn bytes(self) -> Seq<u8> {
        seq![self.modifiers, 0u8] + self.slots.map_values(|k: UsbKeycode| k.data)
    }
}

/// `first_free` finds an empty slot exactly where there is one, and nothing
/// before it is empty.
pub proof fn lemma_first_free(slots: Seq<UsbKeycode>, start: int)
    requires
        0 <= start <= slots.len(),
    ensures
        start <= first_free(slots, start) <= slots.len(),
        first_free(slots, start) < slots.len() ==> slots[first_free(slots, start)].data == 0,
        forall|i: int| start <= i < first_free(slots, start) ==> (#[trigger] slots[i]).data != 0,
    decreases slots.len() - start,
{
    if start < slots.len() && slots[start].data != 0 {
        lemma_first_free(slots, start + 1);
    }
}

/// `slot_keys` holds only keys that take a slot, and no more of them than
/// there are keys.
pub proof fn lemma_slot_keys(keys: Seq<UsbKeycode>)
    ensures
        slot_keys(keys).len() <= keys.len(),
        forall|i: int|
            0 <= i < slot_keys(keys).len() ==> !(#[trigger] slot_keys(keys)[i]).is_modifier()
                && slot_keys(keys)[i].data != 0,
    decreases keys.len(),
{
    if keys.len() > 0 {
        lemma_slot_keys(keys.drop_last());
    }
}

/// A longer run of keys has at least as many keys that take a slot.
pub proof fn lemma_slot_keys_grow(keys: Seq<UsbKeycode>, n: int)
    requires
        0 <= n <= keys.len(),
    ensures
        slot_keys(keys.take(n)).len() <= slot_keys(keys).len(),
    decreases keys.len(),
{
    if n == keys.len() {
        assert(keys.take(n) =~= keys);
    } else {
        assert(keys.drop_last().take(n) =~= keys.take(n));
        lemma_slot_keys_grow(keys.drop_last(), n);
    }
}

/// What a report built from `keys` holds, and when it cannot be built.
///
/// A report that can be built holds, in its slots, the keys that take a
/// slot, in their order and with nothing behind them, and no modifier among
/// them; its modifier byte is the sum of the modifiers' bits. The only
/// fault is the overflow, and it comes exactly when a key that is no
/// modifier arrives after six keys have taken their slots.
pub proof fn lemma_build(keys: Seq<UsbKeycode>)
    ensures
        match Frame::build(keys) {
            Ok(frame) => {
                &&& frame.wf()
                &&& slot_keys(keys).len() <= 6
                &&& frame.slots == padded(slot_keys(keys))
                &&& frame.modifiers == mask_of(keys)
            },
            Err(fault) => fault == Fault::SixKeyOverflow,
        },
        Frame::build(keys) is Err <==> exists|p: int|
            0 <= p < keys.len() && !keys[p].is_modifier() && slot_keys(#[trigger] keys.take(p)).len()
                >= 6,
    decreases keys.len(),
{
    if keys.len() > 0 {
        let prev = keys.drop_last();
        let key = keys.last();
        let last = keys.len() - 1;
        lemma_build(prev);
        lemma_slot_keys(prev);
        assert forall|p: int| 0 <= p < last implies #[trigger] keys.take(p) == prev.take(p) by {}
        match Frame::build(prev) {
            Err(fault) => {
                let p = choose|p: int|
                    0 <= p < prev.len() && !prev[p].is_modifier() && slot_keys(
                        #[trigger] prev.take(p),
                    ).len() >= 6;
                assert(keys.take(p) == prev.take(p));
            },
            Ok(frame) => {
                let taken = slot_keys(prev);
                assert forall|p: int|
                    0 <= p < last && !keys[p].is_modifier() implies slot_keys(
                    #[trigger] keys.take(p),
                ).len() < 6 by {}
                if !key.is_modifier() {
                    lemma_first_free(frame.slots, 0);
                    if taken.len() < 6 {
                        assert(frame.slots[taken.len() as int].data == 0);
                        assert forall|i: int| 0 <= i < taken.len() implies (
                        #[trigger] frame.slots[i]).data != 0 by {}
                        assert(frame.add_key(key)->Ok_0.wf());
                    } else {
                        assert forall|i: int| 0 <= i < 6 implies (#[trigger] frame.slots[i]).data
                            != 0 by {}
                    }
                }
            },
        }
    }
}

/// The six-key boundary: of keys none of which is the null key, up to six
/// that are no modifiers all take their slot in one report, in their order;
/// with a seventh there is no report.
pub proof fn lemma_six_key_boundary(keys: Seq<UsbKeycode>)
    requires
        forall|i: int| 0 <= i < keys.len() ==> (#[trigger] keys[i]).data != 0,
    ensures
        slot_keys(keys).len() <= 6 ==> Frame::build(keys) == Ok::<Frame, Fault>(
            Frame { modifiers: mask_of(keys), slots: padded(slot_keys(keys)) },
        ),
        slot_keys(keys).len() > 6 ==> Frame::build(keys) == Err::<Frame, Fault>(
            Fault::SixKeyOverflow,
        ),
{
    lemma_build(keys);
    if Frame::build(keys) is Err {
        let p = choose|p: int|
            0 <= p < keys.len() && !keys[p].is_modifier() && slot_keys(#[trigger] keys.take(p)).len()
                >= 6;
        let upto = keys.take(p + 1);
        assert(upto.drop_last() =~= keys.take(p));
        lemma_slot_keys_grow(keys, p + 1);
    }
}

/// Modifiers stay out of the slots: whatever the keys, no slot of the
/// report built from them holds a modifier, and adding a modifier to a
/// report changes nothing but the modifier byte.
pub proof fn lemma_modifier_exclusivity(keys: Seq<UsbKeycode>, frame: Frame, m: UsbKeycode)
    requires
        m.is_modifier(),
    ensures
        Frame::build(keys) matches Ok(built) ==> forall|i: int|
            0 <= i < 6 ==> !(#[trigger] built.slots[i]).is_modifier(),
        frame.add_key(m) matches Ok(after) && after.slots == frame.slots,
        slot_keys(keys.push(m)) == slot_keys(keys),
{
    lemma_build(keys);
    assert(keys.push(m).drop_last() =~= keys);
}

/// The modifier byte has a bit exactly where a modifier with that bit is
/// among the keys, and never a bit above the four.
pub proof fn lemma_mask_bits(keys: Seq<UsbKeycode>, m: UsbKeycode)
    requires
        m.is_modifier(),
    ensures
        mask_of(keys) & modifier_mask(m) != 0 <==> exists|i: int|
            0 <= i < keys.len() && (#[trigger] keys[i]).is_modifier() && modifier_mask(keys[i])
                == modifier_mask(m),
        mask_of(keys) < 16,
    decreases keys.len(),
{
    let c = modifier_mask(m);
    if keys.len() == 0 {
        assert(0u8 & c == 0) by (bit_vector);
    } else {
        let prev = keys.drop_last();
        let key = keys.last();
        lemma_mask_bits(prev, m);
        let a = mask_of(prev);
        if key.is_modifier() {
            let b = modifier_mask(key);
            assert(((a | b) & c != 0) == ((a & c != 0) || b == c)) by (bit_vector)
                requires
                    b == 1 || b == 2 || b == 4 || b == 8,
                    c == 1 || c == 2 || c == 4 || c == 8,
            ;
            assert((a | b) < 16) by (bit_vector)
                requires
                    a < 16,
                    b == 1 || b == 2 || b == 4 || b == 8,
            ;
        }
        if mask_of(keys) & c == 0 {
            assert forall|i: int| 0 <= i < keys.len() && (#[trigger] keys[i]).is_modifier() implies modifier_mask(
                keys[i],
            ) != c by {
                if i < prev.len() {
                    assert(prev[i] == keys[i]);
                }
            }
        }
    }
}

/// The output frame of the keyboard.
#[derive(Clone, Copy, Debug, PartialEq, Eq)]
pub struct Report {
    /// One bit for each kind of modifier that is down.
    pub mod_byte: u8,
    /// The ordinary keys that are down; the null key marks an empty slot.
    pub keys: [UsbKeycode; 6],
}

impl View for Report {
    type V = Frame;

    open spec fn view(&self) -> Frame {
        Frame { modifiers: self.mod_byte, slots: self.keys@ }
    }
}

/// The bit of a key in the modifier byte; 0 for a key that is no modifier.
pub fn modifier_bit(key: UsbKeycode) -> (bit: u8)
    ensures
        bit == modifier_mask(key),
{
    let d: u8 = key.data;
    if d == 224 || d == 228 {
        1
    } else if d == 225 || d == 229 {
        2
    } else if d == 226 || d == 230 {
        4
    } else if d == 227 || d == 231 {
        8
    } else {
        0
    }
}

impl Report {
    /// The report of a keyboard at rest: no modifier, no key.
    pub fn new() -> (report: Report)
        ensures
            report@ == Frame::empty(),
            report@.wf(),
    {
        let report = Report { mod_byte: 0, keys: [UsbKeycode::null(); 6] };
        report
    }

    /// The report of one key alone.
    pub fn single_key(key: UsbKeycode) -> (report: Report)
        ensures
            Frame::empty().add_key(key) == Ok::<Frame, Fault>(report@),
            report@.wf(),
    {
        let null = UsbKeycode::null();
        let report = if key.is_modifier() {
            let bit: u8 = modifier_bit(key);
            assert(0u8 | bit == bit) by (bit_vector);
            Report { mod_byte: bit, keys: [null; 6] }
        } else {
            Report { mod_byte: 0, keys: [key, null, null, null, null, null] }
        };
        proof {
            let rest = Frame::empty();
            lemma_first_free(rest.slots, 0);
            assert(report.keys@ =~= if key.is_modifier() {
                rest.slots
            } else {
                rest.slots.update(0, key)
            });
        }
        report
    }

    /// Sets the bit of the modifier `m`. A key that is no modifier is
    /// refused and leaves the report as it was.
    pub fn set_modifier(&mut self, m: UsbKeycode) -> (r: Result<(), Fault>)
        ensures
            match old(self)@.set_modifier(m) {
                Ok(frame) => r is Ok && final(self)@ == frame,
                Err(fault) => r == Err::<(), Fault>(fault) && *final(self) == *old(self),
            },
            r is Err <==> !m.is_modifier(),
            old(self)@.wf() ==> final(self)@.wf(),
    {
        if m.is_modifier() {
            self.mod_byte = self.mod_byte | modifier_bit(m);
            Ok(())
        } else {
            Err(Fault::UnrecognizedModifier)
        }
    }

    /// Adds a key to the report. A modifier sets its bit and takes no slot;
    /// any other key takes the first empty slot. With all six slots taken
    /// the key is refused and the report stays as it was.
    pub fn add_key(&mut self, key: UsbKeycode) -> (r: Result<(), Fault>)
        ensures
            match old(self)@.add_key(key) {
                Ok(frame) => r is Ok && final(self)@ == frame,
                Err(fault) => r == Err::<(), Fault>(fault) && *final(self) == *old(self),
            },
            r is Err <==> !key.is_modifier() && forall|i: int|
                0 <= i < 6 ==> (#[trigger] old(self).keys@[i]).data != 0,
            r is Err ==> r == Err::<(), Fault>(Fault::SixKeyOverflow),
            old(self)@.wf() ==> final(self)@.wf(),
    {
        if key.is_modifier() {
            return self.set_modifier(key);
        }
        proof {
            lemma_first_free(self.keys@, 0);
        }
        let mut i: usize = 0;
        while i < 6
            invariant
                i <= 6,
                !key.is_modifier(),
                *self == *old(self),
                forall|k: int| 0 <= k < i ==> (#[trigger] self.keys@[k]).data != 0,
            decreases 6 - i,
        {
            if self.keys[i].data == 0 {
                proof {
                    lemma_first_free(self.keys@, 0);
                }
                self.keys[i] = key;
                return Ok(());
            }
            i += 1;
        }
        Err(Fault::SixKeyOverflow)
    }

    /// The report as it goes over the wire.
    pub fn data(&self) -> (bytes: [u8; 8])
        ensures
            bytes@ == self@.bytes(),
    {
        let bytes: [u8; 8] = [
            self.mod_byte,
            0,
            self.keys[0].data,
            self.keys[1].data,
            self.keys[2].data,
            self.keys[3].data,
            self.keys[4].data,
            self.keys[5].data,
        ];
        bytes
    }
}

} // verus!
