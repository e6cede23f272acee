//! Owned dynamically-sized values: the capability contract and the
//! allocation engine.
//!
//! A dynamically-sized value is a fixed header followed by a tail whose
//! element count is decided at construction time and carried by the
//! owning handle rather than stored again in the header.  The [`Dst`]
//! trait is the capability a shape must provide: measure a value, lay
//! out memory for a length, retype a raw region into a typed handle,
//! and copy a value field by field into such a handle.  [`DstBox`] is
//! the allocation engine: it turns a capability implementation plus an
//! initializer into a heap-owned value, synthesizing a dangling region
//! for zero-size layouts and releasing the region again when a fallible
//! initializer reports an error.
//!
//! Allocations are drawn from an explicit [`Heap`], a ledger standing
//! for the process heap: it hands out regions, takes them back, and
//! counts the regions currently outstanding, so that the engine's
//! leak-freedom is both stated in contracts and observable.

use vstd::prelude::*;

use crate::layout::{LayoutError, MemLayout};

verus! {

/// Error from the infallible construction path: only the layout
/// computation can fail.
#[derive(Debug, Clone, Copy, PartialEq, Eq)]
pub enum AllocDstError {
    Layout(LayoutError),
}

/// Error from the fallible construction path: either the layout
/// computation failed, before anything was allocated, or the
/// initializer reported an error, after the region was released again.
#[derive(Debug, Clone, Copy, PartialEq, Eq)]
pub enum TryAllocDstError<E> {
    Layout(LayoutError),
    Init(E),
}

/// A raw region obtained from a [`Heap`], or synthesized dangling for a
/// zero-size request.  It carries no storage of its own: it stands for
/// the span of memory a heap-owned value occupies.
#[derive(Debug, PartialEq, Eq)]
pub struct RawAlloc {
    size: usize,
    align: usize,
}

impl RawAlloc {
    /// The region's size in bytes.
    pub closed spec fn spec_size(self) -> nat {
        self.size as nat
    }

    /// The region's alignment in bytes.
    pub closed spec fn spec_align(self) -> nat {
        self.align as nat
    }

    /// A region of size zero: a well-aligned marker that no allocator
    /// ever handed out and none needs to take back.
    pub fn dangling(align: usize) -> (r: RawAlloc)
        ensures
            r.spec_size() == 0,
            r.spec_align() == align,
    {
        RawAlloc { size: 0, align }
    }
}

/// The allocator the engine draws from: a ledger of the regions
/// currently outstanding.  Obtaining memory never fails here, mirroring
/// the convention that allocator exhaustion is fatal rather than a
/// checked error.
pub struct Heap {
    live: usize,
}

impl Heap {
    /// How many regions have been handed out and not yet taken back.
    pub closed spec fn spec_live(self) -> nat {
        self.live as nat
    }

    /// A fresh ledger with no outstanding regions.
    pub fn new() -> (h: Heap)
        ensures
            h.spec_live() == 0,
    {
        Heap { live: 0 }
    }

    /// How many regions have been handed out and not yet taken back.
    pub fn live_allocations(&self) -> (n: usize)
        ensures
            n == self.spec_live(),
    {
        self.live
    }

    /// Hands out a region for the given non-zero layout.
    fn acquire(&mut self, layout: MemLayout) -> (r: RawAlloc)
        requires
            layout.wf(),
            layout.spec_size() > 0,
            old(self).spec_live() < usize::MAX,
        ensures
            final(self).spec_live() == old(self).spec_live() + 1,
            r.spec_size() == layout.spec_size(),
            r.spec_align() == layout.spec_align(),
    {
        self.live = self.live + 1;
        RawAlloc { size: layout.size(), align: layout.align() }
    }

    /// Takes a region back.
    fn dealloc(&mut self, region: RawAlloc)
        requires
            region.spec_size() > 0,
            old(self).spec_live() >= 1,
        ensures
            final(self).spec_live() == (old(self).spec_live() - 1) as nat,
    {
        self.live = self.live - 1;
    }
}

/// A dynamically-sized shape: a fixed header plus a tail of
/// `spec_len(self)` elements.
///
/// An implementation must keep `spec_layout` consistent with what
/// `clone_to_raw` writes: the layout reported for a length describes
/// exactly a value of that length.
pub trait Dst: Sized {
    /// The length of the tail, in elements.  This is not the size of
    /// the value; for that, use [`Dst::layout`].
    spec fn spec_len(&self) -> nat;

    /// The layout of a value with the given length, or none when that
    /// length is unrepresentable.
    spec fn spec_layout(len: nat) -> Option<MemLayout>;

    /// Whether two values agree field for field: header fields equal,
    /// tails holding the same elements.  This is what a byte-for-byte
    /// copy preserves.
    spec fn spec_field_eq(&self, other: &Self) -> bool;

    /// The length of the tail, in elements.
    fn len(&self) -> (n: usize)
        ensures
            n == self.spec_len(),
    ;

    /// The layout of a value with the given length.
    fn layout(len: usize) -> (r: Result<MemLayout, LayoutError>)
        ensures
            match r {
                Ok(l) => Self::spec_layout(len as nat) == Some(l) && l.wf(),
                Err(e) => Self::spec_layout(len as nat) is None,
            },
    ;

    /// Writes this value, field by field, into a destination handle of
    /// the same length, yielding the initialized destination: an
    /// independent value that agrees with this one field for field.
    fn clone_to_raw(&self, dst: UninitDst<Self>) -> (r: InitDst<Self>)
        requires
            dst.spec_len() == self.spec_len(),
        ensures
            self.spec_field_eq(&r.spec_value()),
            r.spec_value().spec_len() == self.spec_len(),
    ;
}

/// A typed but uninitialized handle: the tail length, attached as
/// metadata to a raw region without touching the memory behind it.
pub struct UninitDst<T> {
    len: usize,
    shape: core::marker::PhantomData<T>,
}

impl<T> UninitDst<T> {
    /// The tail length the handle was retyped with.
    pub closed spec fn spec_len(self) -> nat {
        self.len as nat
    }

    /// Attaches a length to a raw region, typing it as a `T` whose
    /// contents are not yet initialized.
    pub fn retype(region: &RawAlloc, len: usize) -> (u: UninitDst<T>)
        ensures
            u.spec_len() == len,
    {
        UninitDst { len, shape: core::marker::PhantomData }
    }

    /// The tail length the handle was retyped with.
    pub fn len(&self) -> (n: usize)
        ensures
            n == self.spec_len(),
    {
        self.len
    }

    /// Initializes the handle with a value, whose tail must fill the
    /// handle's length exactly.
    pub fn init(self, value: T) -> (r: InitDst<T>)
        ensures
            r.spec_value() == value,
            r.spec_len() == self.spec_len(),
    {
        InitDst { len: self.len, value }
    }
}

/// A typed, initialized handle, not yet owning its region: what an
/// initializer hands back to the engine.
pub struct InitDst<T> {
    len: usize,
    value: T,
}

impl<T> InitDst<T> {
    /// The initialized contents.
    pub closed spec fn spec_value(self) -> T {
        self.value
    }

    /// The length of the handle the contents were written through.
    pub closed spec fn spec_len(self) -> nat {
        self.len as nat
    }
}


/// There is a handle of length `len` on which `init` may answer with
/// the initialized value `v`.
pub open spec fn try_init_ok_witness<T: Dst, E, F: FnOnce(UninitDst<T>) -> Result<
    InitDst<T>,
    E,
>>(init: F, len: nat, v: T) -> bool {
    exists|u: UninitDst<T>, i: InitDst<T>|
        u.spec_len() == len && #[trigger] call_ensures(init, (u,), Ok(i)) && i.spec_value() == v
}

/// There is a handle of length `len` on which `init` may answer with
/// the error `e`.
pub open spec fn try_init_err_witness<T: Dst, E, F: FnOnce(UninitDst<T>) -> Result<
    InitDst<T>,
    E,
>>(init: F, len: nat, e: E) -> bool {
    exists|u: UninitDst<T>|
        u.spec_len() == len && #[trigger] call_ensures(init, (u,), Err::<InitDst<T>, E>(e))
}

/// There is a handle of length `len` on which `init` may answer with
/// the initialized value `v`.
pub open spec fn init_ok_witness<T: Dst, F: FnOnce(UninitDst<T>) -> InitDst<T>>(
    init: F,
    len: nat,
    v: T,
) -> bool {
    exists|u: UninitDst<T>, i: InitDst<T>|
        u.spec_len() == len && #[trigger] call_ensures(init, (u,), i) && i.spec_value() == v
}

/// An owning allocation handle: a region sized exactly per the shape's
/// layout for the value's length, together with the value held in it.
#[derive(Debug, PartialEq, Eq)]
pub struct DstBox<T: Dst> {
    mem: RawAlloc,
    value: T,
}

impl<T: Dst> DstBox<T> {
    /// The value held in the allocation.
    pub closed spec fn spec_value(self) -> T {
        self.value
    }

    /// The handle owns a region sized and aligned exactly per the
    /// shape's layout for the value's length.
    pub closed spec fn wf(self) -> bool {
        match T::spec_layout(self.value.spec_len()) {
            Some(l) => self.mem.spec_size() == l.spec_size() && self.mem.spec_align()
                == l.spec_align(),
            None => false,
        }
    }

    /// The size in bytes of the owned region.
    pub open spec fn spec_mem_size(self) -> nat {
        match T::spec_layout(self.spec_value().spec_len()) {
            Some(l) => l.spec_size(),
            None => 0,
        }
    }

    /// A well-formed handle's shape admits a layout for its value's
    /// length.
    pub proof fn lemma_wf_layout(&self)
        requires
            self.wf(),
        ensures
            T::spec_layout(self.spec_value().spec_len()) is Some,
    {
    }

    /// A reference to the value held in the allocation.
    pub fn get(&self) -> (r: &T)
        ensures
            *r == self.spec_value(),
    {
        &self.value
    }

    /// The tail length of the value held in the allocation.
    pub fn len(&self) -> (n: usize)
        ensures
            n == self.spec_value().spec_len(),
    {
        self.value.len()
    }

    /// Gives the value up, returning the owned region to the heap it
    /// was drawn from.
    pub fn release(self, heap: &mut Heap) -> (t: T)
        requires
            self.wf(),
            self.spec_mem_size() > 0 ==> old(heap).spec_live() >= 1,
        ensures
            t == self.spec_value(),
            final(heap).spec_live() == old(heap).spec_live() - (
            if self.spec_mem_size() > 0 {
                1int
            } else {
                0int
            }),
    {
        if self.mem.size > 0 {
            heap.dealloc(self.mem);
        }
        self.value
    }
}

/// Type that can allocate a dynamically-sized value and take ownership
/// of it, given an initializer that cannot fail.
pub trait AllocDst<T: Dst>: Sized {
    /// The owned region is sized exactly per the shape's layout for
    /// the value's length.
    spec fn handle_wf(self) -> bool;

    /// The value held in the handle.
    spec fn contents(self) -> T;

    /// Allocates a region for a value of length `len` and initializes
    /// it with `init`, which cannot fail.  Only the layout computation
    /// can reject the request, before anything is allocated.
    fn new_dst<F: FnOnce(UninitDst<T>) -> InitDst<T>>(heap: &mut Heap, len: usize, init: F) -> (r:
        Result<Self, AllocDstError>)
        requires
            old(heap).spec_live() < usize::MAX,
            forall|u: UninitDst<T>| u.spec_len() == len ==> call_requires(init, (u,)),
            forall|u: UninitDst<T>, i: InitDst<T>|
                u.spec_len() == len && #[trigger] call_ensures(init, (u,), i)
                    ==> i.spec_value().spec_len() == u.spec_len(),
        ensures
            r matches Ok(b) ==> {
                &&& b.handle_wf()
                &&& b.contents().spec_len() == len
                &&& T::spec_layout(len as nat) is Some
                &&& init_ok_witness(init, len as nat, b.contents())
                &&& final(heap).spec_live() == old(heap).spec_live() + (
                if T::spec_layout(len as nat)->Some_0.spec_size() > 0 {
                    1int
                } else {
                    0int
                })
            },
            r matches Err(AllocDstError::Layout(e)) ==> {
                &&& T::spec_layout(len as nat) is None
                &&& final(heap).spec_live() == old(heap).spec_live()
            },
    ;
}

/// Type that can allocate a dynamically-sized value and take ownership
/// of it, given an initializer that may fail.  The implementation must
/// not leak the region when the initializer reports an error.
pub trait TryAllocDst<T: Dst>: Sized + AllocDst<T> {
    /// Allocates a region for a value of length `len`, hands the
    /// retyped region to `init`, and takes ownership of the
    /// initialized result.
    ///
    /// If the layout computation fails, the error is returned before
    /// anything is allocated.  If the layout's size is zero, the heap
    /// is not consulted: a dangling region carries the alignment.  If
    /// the initializer reports an error, the region is released again
    /// and the error is propagated: the heap's ledger ends where it
    /// started.
    fn try_new_dst<E, F: FnOnce(UninitDst<T>) -> Result<InitDst<T>, E>>(
        heap: &mut Heap,
        len: usize,
        init: F,
    ) -> (r: Result<Self, TryAllocDstError<E>>)
        requires
            old(heap).spec_live() < usize::MAX,
            forall|u: UninitDst<T>| u.spec_len() == len ==> call_requires(init, (u,)),
            forall|u: UninitDst<T>, i: InitDst<T>|
                u.spec_len() == len && #[trigger] call_ensures(init, (u,), Ok(i))
                    ==> i.spec_value().spec_len() == u.spec_len(),
        ensures
            r matches Ok(b) ==> {
                &&& b.handle_wf()
                &&& b.contents().spec_len() == len
                &&& T::spec_layout(len as nat) is Some
                &&& try_init_ok_witness(init, len as nat, b.contents())
                &&& final(heap).spec_live() == old(heap).spec_live() + (
                if T::spec_layout(len as nat)->Some_0.spec_size() > 0 {
                    1int
                } else {
                    0int
                })
            },
            r matches Err(TryAllocDstError::Layout(e)) ==> {
                &&& T::spec_layout(len as nat) is None
                &&& final(heap).spec_live() == old(heap).spec_live()
            },
            r matches Err(TryAllocDstError::Init(e)) ==> {
                &&& try_init_err_witness(init, len as nat, e)
                &&& final(heap).spec_live() == old(heap).spec_live()
            },
    ;
}

impl<T: Dst> AllocDst<T> for DstBox<T> {
    open spec fn handle_wf(self) -> bool {
        self.wf()
    }

    open spec fn contents(self) -> T {
        self.spec_value()
    }

    /// Delegates to the fallible path with an initializer that never
    /// reports an error.
    fn new_dst<F: FnOnce(UninitDst<T>) -> InitDst<T>>(heap: &mut Heap, len: usize, init: F) -> (r:
        Result<Self, AllocDstError>) {
        let wrapped = |u: UninitDst<T>| -> (r: Result<InitDst<T>, AllocDstError>)
            requires
                u.spec_len() == len && call_requires(init, (u,)),
            ensures
                r is Ok && call_ensures(init, (u,), r->Ok_0),
            { Ok(init(u)) };
        match <Self as TryAllocDst<T>>::try_new_dst(heap, len, wrapped) {
            Ok(b) => Ok(b),
            Err(TryAllocDstError::Layout(e)) => Err(AllocDstError::Layout(e)),
            Err(TryAllocDstError::Init(e)) => {
                proof {
                    assert(false);
                }
                vstd::pervasive::unreached()
            },
        }
    }
}

impl<T: Dst> TryAllocDst<T> for DstBox<T> {
    #[verifier::rlimit(60)]
    fn try_new_dst<E, F: FnOnce(UninitDst<T>) -> Result<InitDst<T>, E>>(
        heap: &mut Heap,
        len: usize,
        init: F,
    ) -> (r: Result<Self, TryAllocDstError<E>>) {
        let layout = match T::layout(len) {
            Ok(l) => l,
            Err(e) => {
                return Err(TryAllocDstError::Layout(e));
            },
        };
        let size = layout.size();
        let mem = if size == 0 {
            RawAlloc::dangling(layout.align())
        } else {
            heap.acquire(layout)
        };
        let handle = UninitDst::<T>::retype(&mem, len);
        let ghost gu = handle;
        match init(handle) {
            Ok(done) => {
                let ghost gi = done;
                proof {
                    assert(call_ensures(init, (gu,), Ok(gi)));
                    assert(gi.spec_value().spec_len() == len);
                    assert(try_init_ok_witness(init, len as nat, gi.spec_value()));
                }
                let b = DstBox { mem, value: done.value };
                Ok(b)
            },
            Err(e) => {
                proof {
                    assert(call_ensures(init, (gu,), Err::<InitDst<T>, E>(e)));
                    assert(try_init_err_witness(init, len as nat, e));
                }
                if size != 0 {
                    heap.dealloc(mem);
                }
                Err(TryAllocDstError::Init(e))
            },
        }
    }
}

} // verus!
