//! Built-in dynamically-sized shapes.
//!
//! Three implementations of the capability contract: a string tail with
//! no header, a tail of zero-size elements, and a composite with three
//! header fields before the tail, showing the general
//! extend-then-pad layout rule for user-defined shapes.

use vstd::prelude::*;

use vstd::string::StringSliceAdditionalSpecFns;

use crate::dst::{Dst, InitDst, UninitDst};
use crate::layout::{
    spec_array_layout, spec_compose_from, LayoutError, MemLayout,
};

verus! {

/// A string tail with no header: the whole value is the text, and the
/// length is its byte count.
pub struct StrDst {
    pub text: String,
}

impl Dst for StrDst {
    open spec fn spec_len(&self) -> nat {
        vstd::utf8::encode_utf8(self.text@).len() as usize as nat
    }

    open spec fn spec_layout(len: nat) -> Option<MemLayout> {
        spec_array_layout(MemLayout { size: 1, align: 1 }, len)
    }

    open spec fn spec_field_eq(&self, other: &Self) -> bool {
        self.text@ == other.text@
    }

    fn len(&self) -> (n: usize)
    {
        let s = self.text.as_str();
        let n = s.len();
        proof {
            assert(s.spec_bytes() == vstd::utf8::encode_utf8(self.text@));
        }
        n
    }

    fn layout(len: usize) -> (r: Result<MemLayout, LayoutError>)
    {
        MemLayout::array(MemLayout::of_u8(), len)
    }

    fn clone_to_raw(&self, dst: UninitDst<Self>) -> (r: InitDst<Self>)
    {
        dst.init(StrDst { text: self.text.clone() })
    }
}

/// A tail of zero-size elements: any length occupies no memory at all.
pub struct UnitSliceDst {
    pub items: Vec<()>,
}

impl Dst for UnitSliceDst {
    open spec fn spec_len(&self) -> nat {
        self.items@.len()
    }

    open spec fn spec_layout(len: nat) -> Option<MemLayout> {
        spec_array_layout(MemLayout { size: 0, align: 1 }, len)
    }

    open spec fn spec_field_eq(&self, other: &Self) -> bool {
        self.items@.len() == other.items@.len()
    }

    fn len(&self) -> (n: usize)
    {
        self.items.len()
    }

    fn layout(len: usize) -> (r: Result<MemLayout, LayoutError>)
    {
        MemLayout::array(MemLayout { size: 0, align: 1 }, len)
    }

    fn clone_to_raw(&self, dst: UninitDst<Self>) -> (r: InitDst<Self>)
    {
        let mut items: Vec<()> = Vec::new();
        let mut i: usize = 0;
        while i < self.items.len()
            invariant
                0 <= i <= self.items@.len(),
                items@.len() == i,
            decreases self.items@.len() - i,
        {
            items.push(());
            i = i + 1;
        }
        dst.init(UnitSliceDst { items })
    }
}

/// A user-defined composite: three header fields of different widths
/// followed by a tail of sixteen-byte integers.  Its layout follows the
/// general rule: extend the accumulator with each field in declaration
/// order, then pad to the overall alignment.
pub struct MixedDst {
    pub data1: i16,
    pub data2: usize,
    pub data3: u32,
    pub slice: Vec<i128>,
}

impl Dst for MixedDst {
    open spec fn spec_len(&self) -> nat {
        self.slice@.len()
    }

    open spec fn spec_layout(len: nat) -> Option<MemLayout> {
        match spec_array_layout(MemLayout { size: 16, align: 16 }, len) {
            Some(tail) => spec_compose_from(
                MemLayout { size: 2, align: 2 },
                seq![
                    MemLayout { size: 8, align: 8 },
                    MemLayout { size: 4, align: 4 },
                    tail,
                ],
            ),
            None => None,
        }
    }

    open spec fn spec_field_eq(&self, other: &Self) -> bool {
        &&& self.data1 == other.data1
        &&& self.data2 == other.data2
        &&& self.data3 == other.data3
        &&& self.slice@ == other.slice@
    }

    fn len(&self) -> (n: usize)
    {
        self.slice.len()
    }

    fn layout(len: usize) -> (r: Result<MemLayout, LayoutError>)
    {
        let tail = match MemLayout::array(MemLayout::of_u128(), len) {
            Ok(t) => t,
            Err(e) => {
                return Err(LayoutError);
            },
        };
        let mut rest: Vec<MemLayout> = Vec::new();
        rest.push(MemLayout::of_word());
        rest.push(MemLayout::of_u32());
        rest.push(tail);
        proof {
            assert(rest@ =~= seq![
                MemLayout { size: 8, align: 8 },
                MemLayout { size: 4, align: 4 },
                tail,
            ]);
        }
        MemLayout::of_u16().compose(&rest)
    }

    fn clone_to_raw(&self, dst: UninitDst<Self>) -> (r: InitDst<Self>)
    {
        let mut slice: Vec<i128> = Vec::new();
        let mut i: usize = 0;
        while i < self.slice.len()
            invariant
                0 <= i <= self.slice@.len(),
                slice@ =~= self.slice@.take(i as int),
            decreases self.slice@.len() - i,
        {
            slice.push(self.slice[i]);
            i = i + 1;
        }
        proof {
            assert(slice@ =~= self.slice@);
        }
        dst.init(
            MixedDst { data1: self.data1, data2: self.data2, data3: self.data3, slice },
        )
    }
}

} // verus!
