//! Size and alignment arithmetic for header-plus-tail values.
//!
//! A [`MemLayout`] describes the memory a value needs: a byte count and a
//! power-of-two alignment.  Composite shapes build their layout by starting
//! from the first field's layout, extending it with each further field in
//! declaration order, and finally padding the accumulated size up to the
//! overall alignment.  All arithmetic is checked: a size that cannot be
//! represented is reported as a [`LayoutError`].

use vstd::prelude::*;

verus! {

/// Error returned when a requested layout would overflow the
/// largest supported allocation size.
#[derive(Debug, Clone, Copy, PartialEq, Eq, Structural)]
pub struct LayoutError;

/// A size/alignment pair describing the memory a value occupies.
#[derive(Debug, Clone, Copy, PartialEq, Eq, Structural)]
pub struct MemLayout {
    pub size: usize,
    pub align: usize,
}

/// Whether `n` is a power of two.
pub open spec fn is_pow2(n: nat) -> bool
    decreases n,
{
    if n == 0 {
        false
    } else if n == 1 {
        true
    } else {
        n % 2 == 0 && is_pow2(n / 2)
    }
}

/// Largest size any layout may describe: the maximum signed offset,
/// mirroring the limit the global allocator imposes.
pub open spec fn spec_max_size() -> nat {
    usize::MAX as nat / 2
}

/// `x` rounded up to the next multiple of `a`.
pub open spec fn spec_round_up(x: nat, a: nat) -> nat
    recommends
        a > 0,
{
    (((x + a - 1) / (a as int)) * a) as nat
}

/// Layout of `n` contiguous elements of layout `elem`, or none when the
/// total size is unrepresentable.
pub open spec fn spec_array_layout(elem: MemLayout, n: nat) -> Option<MemLayout> {
    if elem.size * n <= spec_max_size() {
        Some(MemLayout { size: (elem.size * n) as usize, align: elem.align })
    } else {
        None
    }
}

/// Layout `a` extended with a following field of layout `b`, together
/// with the field's offset, or none when the combined size is
/// unrepresentable.
pub open spec fn spec_extend_layout(a: MemLayout, b: MemLayout) -> Option<(MemLayout, nat)> {
    let off = spec_round_up(a.size as nat, b.align as nat);
    let size = off + b.size;
    let align = if a.align >= b.align {
        a.align
    } else {
        b.align
    };
    if size <= spec_max_size() {
        Some((MemLayout { size: size as usize, align }, off))
    } else {
        None
    }
}

/// `a` with its size padded up to a multiple of its alignment, or none
/// when the padded size is unrepresentable.
pub open spec fn spec_pad_layout(a: MemLayout) -> Option<MemLayout> {
    let size = spec_round_up(a.size as nat, a.align as nat);
    if size <= spec_max_size() {
        Some(MemLayout { size: size as usize, align: a.align })
    } else {
        None
    }
}

/// Rounding up is monotone in the value rounded.
pub proof fn lemma_round_up_monotone(x: nat, y: nat, a: nat)
    requires
        x <= y,
        a > 0,
    ensures
        spec_round_up(x, a) <= spec_round_up(y, a),
{
    vstd::arithmetic::div_mod::lemma_div_is_ordered(
        (x + a - 1) as int,
        (y + a - 1) as int,
        a as int,
    );
    vstd::arithmetic::mul::lemma_mul_inequality(
        (x + a - 1) as int / (a as int),
        (y + a - 1) as int / (a as int),
        a as int,
    );
}

/// The layout of a composite whose first field has layout `acc` and
/// whose remaining fields follow in declaration order: the accumulator
/// is extended with each field in turn and the final size is padded up
/// to the overall alignment.
pub open spec fn spec_compose_from(acc: MemLayout, rest: Seq<MemLayout>) -> Option<MemLayout>
    decreases rest.len(),
{
    if rest.len() == 0 {
        spec_pad_layout(acc)
    } else {
        match spec_extend_layout(acc, rest[0]) {
            Some(p) => spec_compose_from(p.0, rest.drop_first()),
            None => None,
        }
    }
}

proof fn lemma_pow2_pos(n: nat)
    requires
        is_pow2(n),
    ensures
        n >= 1,
{
}

/// Rounding up yields the least multiple of `a` that is at least `x`.
pub proof fn lemma_round_up(x: nat, a: nat)
    requires
        a > 0,
    ensures
        x <= spec_round_up(x, a) < x + a,
        spec_round_up(x, a) % a == 0,
{
    let s = (x + a - 1) as int;
    let q = s / (a as int);
    vstd::arithmetic::div_mod::lemma_fundamental_div_mod(s, a as int);
    vstd::arithmetic::div_mod::lemma_mod_bound(s, a as int);
    assert(q * a == s - s % (a as int));
    vstd::arithmetic::div_mod::lemma_mod_multiples_basic(q, a as int);
}

impl MemLayout {
    /// The size in bytes.
    pub open spec fn spec_size(self) -> nat {
        self.size as nat
    }

    /// The alignment in bytes.
    pub open spec fn spec_align(self) -> nat {
        self.align as nat
    }

    /// A layout is well formed when its alignment is a representable
    /// power of two and its size does not exceed the largest supported
    /// allocation.
    pub open spec fn wf(self) -> bool {
        &&& is_pow2(self.align as nat)
        &&& self.align as nat <= spec_max_size() + 1
        &&& self.size as nat <= spec_max_size()
    }

    /// The size in bytes.
    pub fn size(&self) -> (n: usize)
        ensures
            n == self.spec_size(),
    {
        self.size
    }

    /// The alignment in bytes.
    pub fn align(&self) -> (n: usize)
        ensures
            n == self.spec_align(),
    {
        self.align
    }

    /// Layout of a single byte.
    pub fn of_u8() -> (l: MemLayout)
        ensures
            l.wf(),
            l.spec_size() == 1,
            l.spec_align() == 1,
    {
        MemLayout { size: 1, align: 1 }
    }

    /// Layout of a two-byte integer.
    pub fn of_u16() -> (l: MemLayout)
        ensures
            l.wf(),
            l.spec_size() == 2,
            l.spec_align() == 2,
    {
        proof {
            reveal_with_fuel(is_pow2, 3);
        }
        MemLayout { size: 2, align: 2 }
    }

    /// Layout of a four-byte integer.
    pub fn of_u32() -> (l: MemLayout)
        ensures
            l.wf(),
            l.spec_size() == 4,
            l.spec_align() == 4,
    {
        proof {
            reveal_with_fuel(is_pow2, 4);
        }
        MemLayout { size: 4, align: 4 }
    }

    /// Layout of a machine word, as stored in a serialized header: eight
    /// bytes regardless of the host's pointer width.
    pub fn of_word() -> (l: MemLayout)
        ensures
            l.wf(),
            l.spec_size() == 8,
            l.spec_align() == 8,
    {
        proof {
            reveal_with_fuel(is_pow2, 5);
        }
        MemLayout { size: 8, align: 8 }
    }

    /// Layout of a sixteen-byte integer.
    pub fn of_u128() -> (l: MemLayout)
        ensures
            l.wf(),
            l.spec_size() == 16,
            l.spec_align() == 16,
    {
        proof {
            reveal_with_fuel(is_pow2, 6);
        }
        MemLayout { size: 16, align: 16 }
    }

    /// Layout of an optional machine word: a tag word followed by the
    /// value word.
    pub fn of_option_word() -> (l: MemLayout)
        ensures
            l.wf(),
            l.spec_size() == 16,
            l.spec_align() == 8,
    {
        proof {
            reveal_with_fuel(is_pow2, 5);
        }
        MemLayout { size: 16, align: 8 }
    }

    /// Layout of `n` contiguous elements, each with layout `elem`.
    ///
    /// Fails exactly when `n` elements would exceed the largest supported
    /// size.
    pub fn array(elem: MemLayout, n: usize) -> (r: Result<MemLayout, LayoutError>)
        requires
            elem.wf(),
        ensures
            match r {
                Ok(l) => {
                    &&& spec_array_layout(elem, n as nat) == Some(l)
                    &&& l.wf()
                    &&& l.spec_size() == elem.spec_size() * n
                    &&& l.spec_align() == elem.spec_align()
                },
                Err(e) => spec_array_layout(elem, n as nat) is None,
            },
    {
        if elem.size == 0 {
            return Ok(MemLayout { size: 0, align: elem.align });
        }
        let max: usize = usize::MAX / 2;
        if n > max / elem.size {
            proof {
                let q = (spec_max_size() as int / elem.spec_size() as int) as nat;
                vstd::arithmetic::div_mod::lemma_fundamental_div_mod(
                    spec_max_size() as int,
                    elem.spec_size() as int,
                );
                vstd::arithmetic::div_mod::lemma_mod_bound(
                    spec_max_size() as int,
                    elem.spec_size() as int,
                );
                assert(elem.spec_size() * n > spec_max_size()) by (nonlinear_arith)
                    requires
                        n > q,
                        elem.spec_size() >= 1,
                        spec_max_size() as int == elem.spec_size() * q + spec_max_size() as int
                            % (elem.spec_size() as int),
                        spec_max_size() as int % (elem.spec_size() as int) < elem.spec_size(),
                {}
            }
            return Err(LayoutError);
        }
        proof {
            let q = (spec_max_size() as int / elem.spec_size() as int) as nat;
            vstd::arithmetic::div_mod::lemma_fundamental_div_mod(
                spec_max_size() as int,
                elem.spec_size() as int,
            );
            vstd::arithmetic::div_mod::lemma_mod_bound(
                spec_max_size() as int,
                elem.spec_size() as int,
            );
            assert(elem.spec_size() * n <= spec_max_size()) by (nonlinear_arith)
                requires
                    n <= q,
                    elem.spec_size() >= 1,
                    elem.spec_size() * q <= spec_max_size(),
            {}
        }
        Ok(MemLayout { size: elem.size * n, align: elem.align })
    }

    /// Extends this layout with a following field, returning the combined
    /// layout and the field's offset.  The offset is the accumulated size
    /// rounded up to the field's alignment; the combined alignment is the
    /// larger of the two.  Fails exactly when the combined size would
    /// exceed the largest supported size.
    pub fn extend(self, next: MemLayout) -> (r: Result<(MemLayout, usize), LayoutError>)
        requires
            self.wf(),
            next.wf(),
        ensures
            match r {
                Ok(p) => {
                    &&& spec_extend_layout(self, next) == Some((p.0, p.1 as nat))
                    &&& p.0.wf()
                    &&& p.1 == spec_round_up(self.spec_size(), next.spec_align())
                    &&& p.0.spec_size() == p.1 + next.spec_size()
                    &&& p.0.spec_align() == if self.spec_align() >= next.spec_align() {
                        self.spec_align()
                    } else {
                        next.spec_align()
                    }
                    &&& p.1 as int % (next.spec_align() as int) == 0
                    &&& self.spec_size() <= p.1
                },
                Err(e) => spec_extend_layout(self, next) is None,
            },
    {
        proof {
            lemma_pow2_pos(self.align as nat);
            lemma_pow2_pos(next.align as nat);
            lemma_round_up(self.size as nat, next.align as nat);
        }
        let offset = (self.size + (next.align - 1)) / next.align * next.align;
        let max: usize = usize::MAX / 2;
        if offset > max || next.size > max - offset {
            return Err(LayoutError);
        }
        let align = if self.align >= next.align {
            self.align
        } else {
            next.align
        };
        Ok((MemLayout { size: offset + next.size, align }, offset))
    }

    /// Pads the size up to a multiple of the alignment, as the final step
    /// of laying out a composite shape.  Fails exactly when the padded
    /// size would exceed the largest supported size.
    pub fn pad_to_align(self) -> (r: Result<MemLayout, LayoutError>)
        requires
            self.wf(),
        ensures
            match r {
                Ok(l) => {
                    &&& spec_pad_layout(self) == Some(l)
                    &&& l.wf()
                    &&& l.spec_align() == self.spec_align()
                    &&& l.spec_size() == spec_round_up(self.spec_size(), self.spec_align())
                    &&& l.spec_size() as int % (l.spec_align() as int) == 0
                },
                Err(e) => spec_pad_layout(self) is None,
            },
    {
        proof {
            lemma_pow2_pos(self.align as nat);
            lemma_round_up(self.size as nat, self.align as nat);
        }
        let padded = (self.size + (self.align - 1)) / self.align * self.align;
        let max: usize = usize::MAX / 2;
        if padded > max {
            return Err(LayoutError);
        }
        Ok(MemLayout { size: padded, align: self.align })
    }

    /// Lays out a composite shape: this layout for the first field,
    /// extended with each layout in `rest` in order, then padded up to
    /// the overall alignment.
    pub fn compose(self, rest: &Vec<MemLayout>) -> (r: Result<MemLayout, LayoutError>)
        requires
            self.wf(),
            forall|i: int| 0 <= i < rest@.len() ==> (#[trigger] rest@[i]).wf(),
        ensures
            match r {
                Ok(l) => spec_compose_from(self, rest@) == Some(l) && l.wf(),
                Err(e) => spec_compose_from(self, rest@) is None,
            },
    {
        let mut acc = self;
        let mut i: usize = 0;
        proof {
            assert(rest@.skip(0) =~= rest@);
        }
        while i < rest.len()
            invariant
                0 <= i <= rest@.len(),
                acc.wf(),
                forall|j: int| 0 <= j < rest@.len() ==> (#[trigger] rest@[j]).wf(),
                spec_compose_from(acc, rest@.skip(i as int)) == spec_compose_from(self, rest@),
            decreases rest@.len() - i,
        {
            proof {
                assert(rest@.skip(i as int)[0] == rest@[i as int]);
                assert(rest@.skip(i as int).drop_first() =~= rest@.skip(i as int + 1));
            }
            acc = match acc.extend(rest[i]) {
                Ok(p) => p.0,
                Err(e) => {
                    return Err(LayoutError);
                },
            };
            i = i + 1;
        }
        proof {
            assert(rest@.skip(i as int) =~= Seq::<MemLayout>::empty());
        }
        acc.pad_to_align()
    }
}

} // verus!
