//! Parsed domain names over a shared header-plus-string representation.
//!
//! A name is validated byte by byte — a trailing dot set aside, length
//! and label limits enforced — and its registrable suffix is found with
//! a public-suffix lookup.  The two indices that result, the dot before
//! the registrable suffix and the dot separating the prefix from the
//! root, become the header of a single heap allocation whose tail is
//! the name's text.  [`Root`] is the base record shape; [`Domain`] is a
//! thin wrapper over the same representation whose accessors read the
//! whole name, so a domain's root is a borrowed projection, not a copy.

use vstd::prelude::*;

use vstd::string::{StringExecFns, StringSliceAdditionalSpecFns};
use vstd::utf8::{
    encode_utf8, encode_utf8_valid_utf8, is_char_boundary,
    is_char_boundary_iff_not_is_continuation_byte, is_char_boundary_start_end_of_seq,
    is_continuation_byte, is_leading_byte_width_1, length_of_first_scalar, pop_first_scalar,
    valid_first_scalar, valid_utf8,
};

use crate::dst::{AllocDst, Dst, DstBox, Heap, InitDst, UninitDst};
use crate::layout::{spec_array_layout, spec_compose_from, LayoutError, MemLayout};

verus! {

/// Largest number of bytes a name may have once any trailing dot is set
/// aside.
pub const MAX_DOMAIN_LEN: usize = 253;

/// Largest number of bytes a single label may have.
pub const MAX_LABEL_LEN: usize = 63;

/// The byte value of the label separator.
pub const SEPARATOR: u8 = 46;

/// Reasons a string is rejected as a domain name.  Each variant keeps
/// the offending input text.
#[derive(Debug, Clone, PartialEq, Eq)]
pub enum DomainParseError {
    /// The name is empty.
    Empty,
    /// The name contains an empty label.
    EmptyLabel { domain: String },
    /// The name has a prefix where none is allowed.
    HasPrefix { domain: String, prefix: String },
    /// The name consists only of its registrable suffix.
    MissingRoot { domain: String },
    /// The suffix lookup found nothing.
    MissingSuffix { domain: String },
    /// The name is longer than [`MAX_DOMAIN_LEN`].
    TooLong { domain: String },
    /// The name contains a label longer than [`MAX_LABEL_LEN`].
    TooLongLabel { domain: String, label: String },
    /// The name's suffix is not a recognized public suffix.
    UnknownSuffix { domain: String, suffix: String },
}

/// Reasons creating an owned name can fail: the text was rejected, or
/// its length admits no layout.
#[derive(Debug, Clone, PartialEq, Eq)]
pub enum DomainCreateError {
    Parse(DomainParseError),
    Layout(LayoutError),
}

/// The bytes of a name with any single trailing dot set aside: the part
/// that is validated and measured.
pub open spec fn spec_working(s: Seq<u8>) -> Seq<u8> {
    if s.len() > 0 && s[s.len() - 1] == SEPARATOR {
        s.drop_last()
    } else {
        s
    }
}

/// Scans `s` for the first malformed label at or after byte `i`, where
/// the current label began at `lab`: a label is malformed when it is
/// empty or longer than [`MAX_LABEL_LEN`] bytes.  Returns the start and
/// end of the first such label, in scanning order.
pub open spec fn spec_first_bad_label(s: Seq<u8>, i: int, lab: int) -> Option<(int, int)>
    decreases s.len() - i,
{
    if i >= s.len() {
        if i - lab == 0 || i - lab > MAX_LABEL_LEN {
            Some((lab, i))
        } else {
            None
        }
    } else if s[i] == SEPARATOR {
        if i - lab == 0 || i - lab > MAX_LABEL_LEN {
            Some((lab, i))
        } else {
            spec_first_bad_label(s, i + 1, i + 1)
        }
    } else {
        spec_first_bad_label(s, i + 1, lab)
    }
}

/// The position of the last separator strictly before byte `end`, if
/// any.
pub open spec fn spec_last_dot_before(s: Seq<u8>, end: int) -> Option<int>
    decreases end,
{
    if end <= 0 {
        None
    } else if s[end - 1] == SEPARATOR {
        Some(end - 1)
    } else {
        spec_last_dot_before(s, end - 1)
    }
}

/// What the public-suffix lookup answers for the given name bytes: the
/// byte length of the suffix it finds and whether that suffix is in the
/// known-suffix list, or nothing.  The answer is a function of the
/// bytes alone.
pub uninterp spec fn psl_suffix_of(s: Seq<u8>) -> Option<(usize, bool)>;

/// Relies on psl::suffix: looks the name up in the compiled-in public
/// suffix list and returns the matching suffix.  The suffix occupies
/// the final bytes of the name, whole labels only, so when it is a
/// proper part of the name a separator stands right before it.
#[verifier::external_body]
fn psl_lookup(name: &[u8]) -> (r: Option<(usize, bool)>)
    requires
        name@.len() > 0,
        name@[name@.len() - 1] != SEPARATOR,
    ensures
        r == psl_suffix_of(name@),
        r matches Some(p) ==> 0 < p.0 <= name@.len(),
        r matches Some(p) ==> (p.0 < name@.len() ==> name@[name@.len() - p.0 - 1] == SEPARATOR),
{
    psl::suffix(name).map(|s| (s.as_bytes().len(), s.is_known()))
}

/// How a name's bytes divide under parsing: accepted with its two
/// header indices, or rejected for one reason.
pub enum SpecOutcome {
    Accept { root_sep: Option<int>, suffix_sep: int },
    Empty,
    EmptyLabel { start: int, end: int },
    TooLongLabel { start: int, end: int },
    TooLong,
    MissingSuffix,
    UnknownSuffix { suffix_len: int },
    MissingRoot,
}

/// The outcome of parsing the name bytes `s`: the first of these that
/// applies.  The working bytes (trailing dot set aside) must be
/// non-empty, at most [`MAX_DOMAIN_LEN`] long, and free of malformed
/// labels; the suffix lookup must find a known suffix that leaves a
/// non-empty root.  An accepted name's suffix separator stands right
/// before the suffix, and its root separator is the last separator
/// before that, if the name has a prefix.
pub open spec fn spec_parse(s: Seq<u8>) -> SpecOutcome {
    let w = spec_working(s);
    if w.len() == 0 {
        SpecOutcome::Empty
    } else if w.len() > MAX_DOMAIN_LEN {
        SpecOutcome::TooLong
    } else if spec_first_bad_label(w, 0, 0) is Some {
        let p = spec_first_bad_label(w, 0, 0)->Some_0;
        if p.1 == p.0 {
            SpecOutcome::EmptyLabel { start: p.0, end: p.1 }
        } else {
            SpecOutcome::TooLongLabel { start: p.0, end: p.1 }
        }
    } else {
        match psl_suffix_of(w) {
            None => SpecOutcome::MissingSuffix,
            Some(p) => {
                if !p.1 {
                    SpecOutcome::UnknownSuffix { suffix_len: p.0 as int }
                } else if p.0 == w.len() {
                    SpecOutcome::MissingRoot
                } else {
                    SpecOutcome::Accept {
                        root_sep: spec_last_dot_before(w, w.len() - p.0 - 1),
                        suffix_sep: w.len() - p.0 - 1,
                    }
                }
            },
        }
    }
}

/// A byte sequence that ends with a separator always has a malformed
/// label: the empty label after that final separator.
proof fn lemma_trailing_dot_bad_label(s: Seq<u8>, i: int, lab: int)
    requires
        0 <= lab <= i <= s.len(),
        forall|j: int| lab <= j < i ==> s[j] != SEPARATOR,
        s.len() > 0,
        s[s.len() - 1] == SEPARATOR,
    ensures
        spec_first_bad_label(s, i, lab) is Some,
    decreases s.len() - i,
{
    if i >= s.len() {
    } else if s[i] == SEPARATOR {
        if i - lab == 0 || i - lab > MAX_LABEL_LEN {
        } else {
            lemma_trailing_dot_bad_label(s, i + 1, i + 1);
        }
    } else {
        lemma_trailing_dot_bad_label(s, i + 1, lab);
    }
}

/// Setting aside a trailing dot is idempotent on bytes whose working
/// part has no malformed label: that part cannot itself end with a
/// separator, or its final label would be empty.
pub proof fn lemma_working_idempotent(s: Seq<u8>)
    requires
        spec_first_bad_label(spec_working(s), 0, 0) is None,
    ensures
        spec_working(spec_working(s)) == spec_working(s),
{
    let w = spec_working(s);
    if w.len() > 0 && w[w.len() - 1] == SEPARATOR {
        lemma_trailing_dot_bad_label(w, 0, 0);
    }
}

/// The last separator before `end` is a separator position, every
/// position after it up to `end` holds no separator, and when there is
/// none, no position before `end` holds one.
proof fn lemma_last_dot_before(s: Seq<u8>, end: int)
    requires
        0 <= end <= s.len(),
    ensures
        match spec_last_dot_before(s, end) {
            Some(k) => 0 <= k < end && s[k] == SEPARATOR && forall|j: int|
                k < j < end ==> s[j] != SEPARATOR,
            None => forall|j: int| 0 <= j < end ==> s[j] != SEPARATOR,
        },
    decreases end,
{
    if end > 0 && s[end - 1] != SEPARATOR {
        lemma_last_dot_before(s, end - 1);
    }
}

/// In a valid UTF-8 encoding, the position after a one-byte character
/// is a character boundary.
proof fn lemma_boundary_after_ascii(bytes: Seq<u8>, i: int)
    requires
        valid_utf8(bytes),
        0 <= i < bytes.len(),
        is_leading_byte_width_1(bytes[i]),
    ensures
        is_char_boundary(bytes, i + 1),
    decreases i,
{
    reveal_with_fuel(valid_utf8, 2);
    reveal_with_fuel(is_char_boundary, 3);
    let rest = pop_first_scalar(bytes);
    let w = length_of_first_scalar(bytes);
    assert(valid_first_scalar(bytes));
    assert(1 <= w <= 4);
    if i == 0 {
        assert(w == 1);
        assert(is_char_boundary(rest, 0));
    } else {
        assert(i >= w) by {
            if i < w {
                assert(is_continuation_byte(bytes[i]));
            }
        }
        assert(rest[i - w] == bytes[i]);
        lemma_boundary_after_ascii(rest, i - w);
        assert(is_char_boundary(bytes, i + 1));
    }
}

/// A separator byte marks a character boundary, and so does the
/// position right after it.
proof fn lemma_dot_boundaries(bytes: Seq<u8>, i: int)
    requires
        valid_utf8(bytes),
        0 <= i < bytes.len(),
        bytes[i] == SEPARATOR,
    ensures
        is_char_boundary(bytes, i),
        is_char_boundary(bytes, i + 1),
{
    is_char_boundary_iff_not_is_continuation_byte(bytes, i);
    lemma_boundary_after_ascii(bytes, i);
}

/// The bytes of a string are a valid UTF-8 encoding.
proof fn lemma_str_bytes_valid(s: &str)
    ensures
        valid_utf8(s.spec_bytes()),
{
    encode_utf8_valid_utf8(s@);
}

/// The last separator before `end` is the same whether sought in `s`
/// or in a prefix of `s` reaching at least to `end`.
proof fn lemma_last_dot_prefix(s: Seq<u8>, w: Seq<u8>, end: int)
    requires
        w.len() <= s.len(),
        forall|j: int| 0 <= j < w.len() ==> s[j] == w[j],
        0 <= end <= w.len(),
    ensures
        spec_last_dot_before(s, end) == spec_last_dot_before(w, end),
    decreases end,
{
    if end > 0 && s[end - 1] != SEPARATOR {
        lemma_last_dot_prefix(s, w, end - 1);
    }
}

/// Copies bytes `a..b` of `s`, both positions on character boundaries,
/// into a fresh string.
fn substring(s: &str, a: usize, b: usize) -> (r: String)
    requires
        a <= b <= s.spec_bytes().len(),
        is_char_boundary(s.spec_bytes(), a as int),
        is_char_boundary(s.spec_bytes(), b as int),
    ensures
        encode_utf8(r@) == s.spec_bytes().subrange(a as int, b as int),
{
    proof {
        lemma_str_bytes_valid(s);
        vstd::utf8::valid_utf8_split(s.spec_bytes(), b as int);
    }
    let (head, _) = s.split_at(b);
    proof {
        if a < b {
            is_char_boundary_iff_not_is_continuation_byte(s.spec_bytes(), a as int);
            is_char_boundary_iff_not_is_continuation_byte(head.spec_bytes(), a as int);
        } else {
            is_char_boundary_start_end_of_seq(head.spec_bytes());
        }
    }
    let (_, tail) = head.split_at(a);
    let r = String::from_str(tail);
    proof {
        assert(encode_utf8(r@) == tail.spec_bytes());
        assert(tail.spec_bytes() =~= s.spec_bytes().subrange(a as int, b as int));
    }
    r
}

/// The position of the last separator strictly before byte `end`, if
/// any.
fn rfind_dot(bytes: &[u8], end: usize) -> (r: Option<usize>)
    requires
        end <= bytes@.len(),
    ensures
        match r {
            Some(k) => spec_last_dot_before(bytes@, end as int) == Some(k as int),
            None => spec_last_dot_before(bytes@, end as int) is None,
        },
{
    let mut k = end;
    while k > 0
        invariant
            k <= end <= bytes@.len(),
            spec_last_dot_before(bytes@, end as int) == spec_last_dot_before(bytes@, k as int),
        decreases k,
    {
        if bytes[k - 1] == SEPARATOR {
            return Some(k - 1);
        }
        k = k - 1;
    }
    None
}

/// How each rejection relates to the name bytes `s` and the input view
/// `dv` it came from: the rejection [`spec_parse`] reaches, carrying
/// the input text and, where one is named, the offending label or
/// suffix.
pub open spec fn spec_rejects(e: DomainParseError, s: Seq<u8>, dv: Seq<char>) -> bool {
    let w = spec_working(s);
    match e {
        DomainParseError::Empty => spec_parse(s) is Empty,
        DomainParseError::TooLong { domain: d } => spec_parse(s) is TooLong && d@ == dv,
        DomainParseError::EmptyLabel { domain: d } => spec_parse(s) is EmptyLabel && d@ == dv,
        DomainParseError::TooLongLabel { domain: d, label: l } => {
            &&& spec_parse(s) matches SpecOutcome::TooLongLabel { start, end } && encode_utf8(l@)
                == w.subrange(start, end)
            &&& d@ == dv
        },
        DomainParseError::MissingSuffix { domain: d } => spec_parse(s) is MissingSuffix && d@
            == dv,
        DomainParseError::UnknownSuffix { domain: d, suffix: suf } => {
            &&& spec_parse(s) matches SpecOutcome::UnknownSuffix { suffix_len } && encode_utf8(
                suf@,
            ) == w.subrange(w.len() - suffix_len, w.len() as int)
            &&& d@ == dv
        },
        DomainParseError::MissingRoot { domain: d } => spec_parse(s) is MissingRoot && d@ == dv,
        DomainParseError::HasPrefix { domain: d, prefix } => {
            &&& spec_parse(s) matches SpecOutcome::Accept { root_sep: Some(i), .. }
                && encode_utf8(prefix@) == s.subrange(0, i)
            &&& d@ == dv
        },
    }
}

/// Computes the two header indices for a name: the position of the
/// separator between the prefix and the root, if any, and the position
/// of the separator before the registrable suffix.  Rejects the name
/// as [`spec_parse`] describes, first failure first.  A prefix is not
/// rejected here.
fn parse_domain(domain: &str) -> (r: Result<(Option<usize>, usize), DomainParseError>)
    ensures
        ({
            let s = domain.spec_bytes();
            match r {
                Ok(p) => {
                    &&& spec_parse(s) == (SpecOutcome::Accept {
                        root_sep: match p.0 {
                            Some(i) => Some(i as int),
                            None => None,
                        },
                        suffix_sep: p.1 as int,
                    })
                    &&& p.1 < spec_working(s).len()
                    &&& s[p.1 as int] == SEPARATOR
                    &&& p.0 matches Some(i) ==> i < p.1 && s[i as int] == SEPARATOR
                },
                Err(e) => spec_rejects(e, s, domain@) && !(e matches DomainParseError::HasPrefix {
                    ..
                }),
            }
        }),
{
    let bytes = domain.as_bytes();
    let n = bytes.len();
    let ghost s = domain.spec_bytes();
    let ghost w = spec_working(s);
    proof {
        lemma_str_bytes_valid(domain);
    }
    let wn: usize = if n > 0 && bytes[n - 1] == SEPARATOR {
        n - 1
    } else {
        n
    };
    proof {
        assert(w =~= s.subrange(0, wn as int));
    }
    if wn == 0 {
        return Err(DomainParseError::Empty);
    }
    if wn > MAX_DOMAIN_LEN {
        return Err(DomainParseError::TooLong { domain: String::from_str(domain) });
    }
    let mut i: usize = 0;
    let mut lab: usize = 0;
    while i < wn
        invariant
            0 <= lab <= i <= wn <= n,
            n == s.len(),
            bytes@ == s,
            s == domain.spec_bytes(),
            valid_utf8(s),
            w == spec_working(s),
            w =~= s.subrange(0, wn as int),
            0 < wn <= MAX_DOMAIN_LEN,
            wn < n ==> s[wn as int] == SEPARATOR,
            spec_first_bad_label(w, 0, 0) == spec_first_bad_label(w, i as int, lab as int),
            lab == 0 || s[lab - 1] == SEPARATOR,
            forall|j: int| lab <= j < i ==> s[j] != SEPARATOR,
        decreases wn - i,
    {
        if bytes[i] == SEPARATOR {
            if i == lab {
                return Err(DomainParseError::EmptyLabel { domain: String::from_str(domain) });
            }
            if i - lab > MAX_LABEL_LEN {
                proof {
                    lemma_dot_boundaries(s, i as int);
                    if lab > 0 {
                        lemma_dot_boundaries(s, lab - 1);
                    }
                }
                let label = substring(domain, lab, i);
                proof {
                    assert(s.subrange(lab as int, i as int) =~= w.subrange(lab as int, i as int));
                }
                return Err(
                    DomainParseError::TooLongLabel {
                        domain: String::from_str(domain),
                        label,
                    },
                );
            }
            lab = i + 1;
        }
        i = i + 1;
    }
    if i == lab {
        return Err(DomainParseError::EmptyLabel { domain: String::from_str(domain) });
    }
    if i - lab > MAX_LABEL_LEN {
        proof {
            if wn < n {
                lemma_dot_boundaries(s, wn as int);
            } else {
                is_char_boundary_start_end_of_seq(s);
            }
            if lab > 0 {
                lemma_dot_boundaries(s, lab - 1);
            }
        }
        let label = substring(domain, lab, wn);
        proof {
            assert(s.subrange(lab as int, wn as int) =~= w.subrange(lab as int, wn as int));
        }
        return Err(
            DomainParseError::TooLongLabel { domain: String::from_str(domain), label },
        );
    }
    proof {
        assert(spec_first_bad_label(w, 0, 0) is None);
        assert(w[wn - 1] == s[wn - 1]);
        assert(s[wn - 1] != SEPARATOR);
    }
    let working_bytes = &bytes[0..wn];
    let looked_up = psl_lookup(working_bytes);
    match looked_up {
        None => Err(DomainParseError::MissingSuffix { domain: String::from_str(domain) }),
        Some((slen, known)) => {
            if !known {
                proof {
                    if slen < wn {
                        lemma_dot_boundaries(s, wn - slen - 1);
                    } else {
                        reveal_with_fuel(is_char_boundary, 1);
                    }
                    if wn < n {
                        lemma_dot_boundaries(s, wn as int);
                    } else {
                        is_char_boundary_start_end_of_seq(s);
                    }
                }
                let suffix = substring(domain, wn - slen, wn);
                proof {
                    assert(s.subrange(wn - slen, wn as int) =~= w.subrange(
                        w.len() - slen,
                        w.len() as int,
                    ));
                }
                Err(
                    DomainParseError::UnknownSuffix {
                        domain: String::from_str(domain),
                        suffix,
                    },
                )
            } else if slen == wn {
                Err(DomainParseError::MissingRoot { domain: String::from_str(domain) })
            } else {
                let suffix_sep = wn - slen - 1;
                let root_sep = rfind_dot(bytes, suffix_sep);
                proof {
                    lemma_last_dot_prefix(s, w, suffix_sep as int);
                    lemma_last_dot_before(s, suffix_sep as int);
                }
                Ok((root_sep, suffix_sep))
            }
        },
    }
}

/// The shared header-plus-text record behind [`Root`] and [`Domain`]:
/// the two separator indices, then the name's text as the tail.
#[derive(Debug, PartialEq, Eq)]
pub struct NameData {
    pub root_sep: Option<usize>,
    pub suffix_sep: usize,
    pub text: String,
}

impl Dst for NameData {
    open spec fn spec_len(&self) -> nat {
        encode_utf8(self.text@).len() as usize as nat
    }

    open spec fn spec_layout(len: nat) -> Option<MemLayout> {
        match spec_array_layout(MemLayout { size: 1, align: 1 }, len) {
            Some(tail) => spec_compose_from(
                MemLayout { size: 16, align: 8 },
                seq![MemLayout { size: 8, align: 8 }, tail],
            ),
            None => None,
        }
    }

    open spec fn spec_field_eq(&self, other: &Self) -> bool {
        &&& self.root_sep == other.root_sep
        &&& self.suffix_sep == other.suffix_sep
        &&& self.text@ == other.text@
    }

    fn len(&self) -> (n: usize) {
        let t = self.text.as_str();
        let n = t.len();
        proof {
            assert(t.spec_bytes() == encode_utf8(self.text@));
        }
        n
    }

    fn layout(len: usize) -> (r: Result<MemLayout, LayoutError>) {
        let tail = match MemLayout::array(MemLayout::of_u8(), len) {
            Ok(t) => t,
            Err(e) => {
                return Err(LayoutError);
            },
        };
        let mut rest: Vec<MemLayout> = Vec::new();
        rest.push(MemLayout::of_word());
        rest.push(tail);
        proof {
            assert(rest@ =~= seq![MemLayout { size: 8, align: 8 }, tail]);
        }
        MemLayout::of_option_word().compose(&rest)
    }

    fn clone_to_raw(&self, dst: UninitDst<Self>) -> (r: InitDst<Self>) {
        dst.init(
            NameData {
                root_sep: self.root_sep,
                suffix_sep: self.suffix_sep,
                text: self.text.clone(),
            },
        )
    }
}

/// A name layout that exists for some text length also exists for any
/// shorter length.
proof fn lemma_name_layout_shorter(a: nat, b: nat)
    requires
        a <= b,
        NameData::spec_layout(b) is Some,
    ensures
        NameData::spec_layout(a) is Some,
{
    reveal_with_fuel(crate::layout::spec_compose_from, 4);
    let u8l = MemLayout { size: 1, align: 1 };
    let head = MemLayout { size: 16, align: 8 };
    let word = MemLayout { size: 8, align: 8 };
    assert(spec_array_layout(u8l, b) is Some);
    assert(b <= crate::layout::spec_max_size());
    let tb = spec_array_layout(u8l, b)->Some_0;
    let ta = spec_array_layout(u8l, a)->Some_0;
    assert(1 * b == b) by (nonlinear_arith);
    assert(1 * a == a) by (nonlinear_arith);
    assert(tb.size == b as usize && tb.align == 1);
    assert(ta.size == a as usize && ta.align == 1);
    let restb = seq![word, tb];
    let resta = seq![word, ta];
    assert(crate::layout::spec_extend_layout(head, word) is Some) by {
        crate::layout::lemma_round_up(16, 8);
    }
    let first = crate::layout::spec_extend_layout(head, word)->Some_0.0;
    assert(restb.drop_first() =~= seq![tb]);
    assert(resta.drop_first() =~= seq![ta]);
    assert(seq![tb].drop_first() =~= Seq::<MemLayout>::empty());
    assert(seq![ta].drop_first() =~= Seq::<MemLayout>::empty());
    crate::layout::lemma_round_up(first.size as nat, 1);
    crate::layout::lemma_round_up((first.size + b) as nat, 8);
    crate::layout::lemma_round_up((first.size + a) as nat, 8);
    crate::layout::lemma_round_up_monotone(
        (first.size + a) as nat,
        (first.size + b) as nat,
        8,
    );
}

/// Allocates a name record through the engine: one region for header
/// and text, initialized by writing the record into the retyped handle.
fn alloc_name(data: NameData) -> (r: Result<DstBox<NameData>, LayoutError>)
    ensures
        match r {
            Ok(b) => b.wf() && b.spec_value() == data,
            Err(e) => NameData::spec_layout(data.spec_len()) is None,
        },
{
    let ghost gdata = data;
    let len = data.len();
    let mut heap = Heap::new();
    let writer = move |u: UninitDst<NameData>| -> (done: InitDst<NameData>)
        requires
            u.spec_len() == gdata.spec_len(),
        ensures
            done.spec_value() == gdata,
        { u.init(data) };
    match DstBox::new_dst(&mut heap, len, writer) {
        Ok(b) => {
            proof {
                assert(b.spec_value() == gdata) by {
                    let (u, i) = choose|u: UninitDst<NameData>, i: InitDst<NameData>|
                        u.spec_len() == len && #[trigger] call_ensures(writer, (u,), i)
                            && i.spec_value() == b.spec_value();
                    assert(call_ensures(writer, (u,), i));
                }
            }
            Ok(b)
        },
        Err(crate::dst::AllocDstError::Layout(e)) => Err(e),
    }
}

/// The root part of a domain name: the registrable root and its
/// suffix, with no prefix before it.  A value carrying a prefix
/// separator index is a projection of a [`Domain`]: its accessors
/// start reading after that separator.
#[derive(Debug, PartialEq, Eq)]
pub struct Root {
    b: DstBox<NameData>,
}

impl Root {
    /// The owning allocation handle.
    pub closed spec fn spec_box(self) -> DstBox<NameData> {
        self.b
    }

    /// The stored record.
    pub open spec fn spec_data(self) -> NameData {
        self.spec_box().spec_value()
    }

    /// The bytes of the full backing text.
    pub open spec fn spec_text_bytes(self) -> Seq<u8> {
        encode_utf8(self.spec_data().text@)
    }

    /// The stored prefix separator index, if any.
    pub open spec fn spec_root_sep(self) -> Option<usize> {
        self.spec_data().root_sep
    }

    /// The stored suffix separator index.
    pub open spec fn spec_suffix_sep(self) -> int {
        self.spec_data().suffix_sep as int
    }

    /// Where the visible text begins: after the prefix separator when
    /// one is stored.
    pub open spec fn spec_start(self) -> int {
        match self.spec_root_sep() {
            Some(i) => i + 1,
            None => 0,
        }
    }

    /// The bytes of the visible text.
    pub open spec fn spec_str_bytes(self) -> Seq<u8> {
        self.spec_text_bytes().skip(self.spec_start())
    }

    /// Whether the stored text ends with a separator.
    pub open spec fn spec_is_fqdn(self) -> bool {
        let t = self.spec_text_bytes();
        t.len() > 0 && t[t.len() - 1] == SEPARATOR
    }

    /// A well-formed record: the allocation matches the text's length,
    /// the working text is non-empty with well-formed labels, and the
    /// stored indices point at separators, prefix before suffix.
    pub open spec fn wf(self) -> bool {
        let t = self.spec_text_bytes();
        let w = spec_working(t);
        &&& self.spec_box().wf()
        &&& t.len() <= usize::MAX
        &&& w.len() > 0
        &&& spec_first_bad_label(w, 0, 0) is None
        &&& 0 <= self.spec_suffix_sep() < w.len()
        &&& t[self.spec_suffix_sep()] == SEPARATOR
        &&& match self.spec_root_sep() {
            Some(i) => i < self.spec_suffix_sep() && t[i as int] == SEPARATOR,
            None => true,
        }
    }

    /// The full backing text.
    fn full_str(&self) -> (r: &str)
        ensures
            r.spec_bytes() == self.spec_text_bytes(),
            r@ == self.spec_data().text@,
    {
        self.b.get().text.as_str()
    }

    /// Parses a string into an owned root, which must carry no prefix.
    pub fn parse(input: &str) -> (r: Result<Root, DomainCreateError>)
        ensures
            ({
                let s = input.spec_bytes();
                match r {
                    Ok(root) => {
                        &&& root.wf()
                        &&& root.spec_text_bytes() == s
                        &&& root.spec_root_sep() is None
                        &&& spec_parse(s) matches SpecOutcome::Accept { root_sep, suffix_sep }
                            && root_sep is None && root.spec_suffix_sep() == suffix_sep
                    },
                    Err(DomainCreateError::Parse(e)) => spec_rejects(e, s, input@),
                    Err(DomainCreateError::Layout(e)) => {
                        &&& spec_parse(s) matches SpecOutcome::Accept { root_sep, suffix_sep }
                            && root_sep is None
                        &&& NameData::spec_layout(s.len() as usize as nat) is None
                    },
                }
            }),
    {
        let bytes = input.as_bytes();
        let (root_sep, suffix_sep) = match parse_domain(input) {
            Ok(p) => p,
            Err(e) => {
                return Err(DomainCreateError::Parse(e));
            },
        };
        let n = bytes.len();
        if let Some(i) = root_sep {
            proof {
                lemma_str_bytes_valid(input);
                assert(i < suffix_sep < n);
                lemma_dot_boundaries(input.spec_bytes(), i as int);
                reveal_with_fuel(is_char_boundary, 1);
            }
            let prefix = substring(input, 0, i);
            return Err(
                DomainCreateError::Parse(
                    DomainParseError::HasPrefix {
                        domain: String::from_str(input),
                        prefix,
                    },
                ),
            );
        }
        let data = NameData {
            root_sep: None,
            suffix_sep,
            text: String::from_str(input),
        };
        match alloc_name(data) {
            Ok(b) => Ok(Root { b }),
            Err(e) => Err(DomainCreateError::Layout(e)),
        }
    }

    /// The text of the root: the name without any prefix.
    pub fn as_str(&self) -> (r: &str)
        requires
            self.wf(),
        ensures
            r.spec_bytes() == self.spec_str_bytes(),
    {
        proof {
            encode_utf8_valid_utf8(self.spec_data().text@);
        }
        match self.b.get().root_sep {
            Some(i) => {
                proof {
                    lemma_dot_boundaries(self.spec_text_bytes(), i as int);
                }
                let (_, tail) = self.full_str().split_at(i + 1);
                proof {
                    assert(tail.spec_bytes() =~= self.spec_str_bytes());
                }
                tail
            },
            None => {
                let r = self.full_str();
                proof {
                    assert(r.spec_bytes() =~= self.spec_str_bytes());
                }
                r
            },
        }
    }

    /// The registrable suffix: the text after the suffix separator.
    pub fn suffix(&self) -> (r: &str)
        requires
            self.wf(),
        ensures
            r.spec_bytes() == self.spec_text_bytes().skip(self.spec_suffix_sep() + 1),
    {
        proof {
            encode_utf8_valid_utf8(self.spec_data().text@);
            lemma_dot_boundaries(self.spec_text_bytes(), self.spec_suffix_sep());
        }
        let (_, tail) = self.full_str().split_at(self.b.get().suffix_sep + 1);
        tail
    }

    /// Whether the name is fully qualified, that is, ends with a
    /// separator.
    pub fn is_fqdn(&self) -> (r: bool)
        requires
            self.wf(),
        ensures
            r == self.spec_is_fqdn(),
    {
        let bs = self.full_str().as_bytes();
        let n = bs.len();
        n > 0 && bs[n - 1] == SEPARATOR
    }

    /// This name without its trailing separator: the same record over
    /// the working text.  A name that is not fully qualified comes back
    /// unchanged.
    pub fn not_fqdn(&self) -> (r: Root)
        requires
            self.wf(),
        ensures
            r.wf(),
            r.spec_text_bytes() == spec_working(self.spec_text_bytes()),
            r.spec_root_sep() == self.spec_root_sep(),
            r.spec_suffix_sep() == self.spec_suffix_sep(),
    {
        let ghost t = self.spec_text_bytes();
        let full = self.full_str();
        let n = full.as_bytes().len();
        let text = if self.is_fqdn() {
            proof {
                lemma_str_bytes_valid(full);
                lemma_dot_boundaries(t, n - 1);
                is_char_boundary_start_end_of_seq(t);
            }
            let shorter = substring(full, 0, n - 1);
            proof {
                assert(t.subrange(0, n - 1) =~= spec_working(t));
            }
            shorter
        } else {
            let same = String::from_str(full);
            proof {
                assert(spec_working(t) =~= t);
            }
            same
        };
        let data = NameData {
            root_sep: self.b.get().root_sep,
            suffix_sep: self.b.get().suffix_sep,
            text,
        };
        let ghost gd = data;
        proof {
            lemma_working_idempotent(t);
        }
        match alloc_name(data) {
            Ok(b) => Root { b },
            Err(e) => {
                proof {
                    self.spec_box().lemma_wf_layout();
                    lemma_name_layout_shorter(gd.spec_len(), self.spec_data().spec_len());
                    assert(false);
                }
                vstd::pervasive::unreached()
            },
        }
    }
}

/// A domain name: optional prefix, registrable root, and suffix, all
/// views into one allocation.
#[derive(Debug, PartialEq, Eq)]
pub struct Domain {
    root: Root,
}

impl Domain {
    /// The root record behind this name.  The two shapes share one
    /// representation, so the root is the same record read from after
    /// the prefix separator.
    pub closed spec fn spec_root(self) -> Root {
        self.root
    }

    /// The bytes of the full text.
    pub open spec fn spec_text_bytes(self) -> Seq<u8> {
        self.spec_root().spec_text_bytes()
    }

    /// The stored prefix separator index, if any.
    pub open spec fn spec_root_sep(self) -> Option<usize> {
        self.spec_root().spec_root_sep()
    }

    /// The stored suffix separator index.
    pub open spec fn spec_suffix_sep(self) -> int {
        self.spec_root().spec_suffix_sep()
    }

    /// Whether the stored text ends with a separator.
    pub open spec fn spec_is_fqdn(self) -> bool {
        self.spec_root().spec_is_fqdn()
    }

    /// A well-formed name: the shared record is well formed.
    pub open spec fn wf(self) -> bool {
        self.spec_root().wf()
    }

    /// Parses a string into an owned domain name.
    pub fn parse(input: &str) -> (r: Result<Domain, DomainCreateError>)
        ensures
            ({
                let s = input.spec_bytes();
                match r {
                    Ok(d) => {
                        &&& d.wf()
                        &&& d.spec_text_bytes() == s
                        &&& spec_parse(s) matches SpecOutcome::Accept { root_sep, suffix_sep }
                            && (match d.spec_root_sep() {
                                Some(i) => root_sep == Some(i as int),
                                None => root_sep is None,
                            }) && d.spec_suffix_sep() == suffix_sep
                    },
                    Err(DomainCreateError::Parse(e)) => spec_rejects(e, s, input@) && !(
                    e matches DomainParseError::HasPrefix { .. }),
                    Err(DomainCreateError::Layout(e)) => {
                        &&& spec_parse(s) is Accept
                        &&& NameData::spec_layout(s.len() as usize as nat) is None
                    },
                }
            }),
    {
        let bytes = input.as_bytes();
        let n = bytes.len();
        let (root_sep, suffix_sep) = match parse_domain(input) {
            Ok(p) => p,
            Err(e) => {
                return Err(DomainCreateError::Parse(e));
            },
        };
        let data = NameData { root_sep, suffix_sep, text: String::from_str(input) };
        match alloc_name(data) {
            Ok(b) => Ok(Domain { root: Root { b } }),
            Err(e) => Err(DomainCreateError::Layout(e)),
        }
    }

    /// The full text of the name.
    pub fn as_str(&self) -> (r: &str)
        requires
            self.wf(),
        ensures
            r.spec_bytes() == self.spec_text_bytes(),
    {
        self.root.full_str()
    }

    /// The prefix: the text before the prefix separator, absent when
    /// the name is just root and suffix.
    pub fn prefix(&self) -> (r: Option<&str>)
        requires
            self.wf(),
        ensures
            match r {
                Some(p) => self.spec_root_sep() matches Some(i) && p.spec_bytes()
                    == self.spec_text_bytes().take(i as int),
                None => self.spec_root_sep() is None,
            },
    {
        proof {
            encode_utf8_valid_utf8(self.root.spec_data().text@);
        }
        match self.root.b.get().root_sep {
            Some(i) => {
                proof {
                    lemma_dot_boundaries(self.spec_text_bytes(), i as int);
                    reveal_with_fuel(is_char_boundary, 1);
                }
                let (head, _) = self.root.full_str().split_at(i);
                proof {
                    assert(head.spec_bytes() =~= self.spec_text_bytes().take(i as int));
                }
                Some(head)
            },
            None => None,
        }
    }

    /// The root part of the name: a borrowed view of the same record,
    /// reading from after the prefix separator.
    pub fn root(&self) -> (r: &Root)
        ensures
            *r == self.spec_root(),
    {
        &self.root
    }

    /// The root part of the name as text.
    pub fn root_str(&self) -> (r: &str)
        requires
            self.wf(),
        ensures
            r.spec_bytes() == self.spec_root().spec_str_bytes(),
    {
        self.root.as_str()
    }

    /// The registrable suffix: the text after the suffix separator.
    pub fn suffix(&self) -> (r: &str)
        requires
            self.wf(),
        ensures
            r.spec_bytes() == self.spec_text_bytes().skip(self.spec_suffix_sep() + 1),
    {
        self.root.suffix()
    }

    /// Whether the name is fully qualified, that is, ends with a
    /// separator.
    pub fn is_fqdn(&self) -> (r: bool)
        requires
            self.wf(),
        ensures
            r == self.spec_is_fqdn(),
    {
        self.root.is_fqdn()
    }

    /// This name without its trailing separator: the same record over
    /// the working text.  A name that is not fully qualified comes back
    /// unchanged.
    pub fn not_fqdn(&self) -> (r: Domain)
        requires
            self.wf(),
        ensures
            r.wf(),
            r.spec_text_bytes() == spec_working(self.spec_text_bytes()),
            r.spec_root_sep() == self.spec_root_sep(),
            r.spec_suffix_sep() == self.spec_suffix_sep(),
    {
        Domain { root: self.root.not_fqdn() }
    }
}

/// The not-fully-qualified part of a name: the text without its
/// trailing separator, when it has one.
pub fn get_not_fqdn(s: &str) -> (r: &str)
    ensures
        r.spec_bytes() == spec_working(s.spec_bytes()),
{
    let bytes = s.as_bytes();
    let n = bytes.len();
    if n > 0 && bytes[n - 1] == SEPARATOR {
        proof {
            lemma_str_bytes_valid(s);
            lemma_dot_boundaries(s.spec_bytes(), n - 1);
        }
        let (head, _) = s.split_at(n - 1);
        proof {
            assert(head.spec_bytes() =~= spec_working(s.spec_bytes()));
        }
        head
    } else {
        proof {
            assert(s.spec_bytes() =~= spec_working(s.spec_bytes()));
        }
        s
    }
}

/// Dropping a trailing separator is idempotent: done twice to a
/// well-formed name's text, it gives the same bytes as done once.
pub proof fn lemma_not_fqdn_idempotent(x: Root)
    requires
        x.wf(),
    ensures
        spec_working(spec_working(x.spec_text_bytes())) == spec_working(x.spec_text_bytes()),
{
    lemma_working_idempotent(x.spec_text_bytes());
}

/// The working text of a name is the name itself, or, when the name
/// ends with a separator, the name with exactly that one byte dropped:
/// nothing more is ever removed.
pub proof fn lemma_working_strips_at_most_dot(s: Seq<u8>)
    ensures
        spec_working(s) == s || (s.len() > 0 && s[s.len() - 1] == SEPARATOR && spec_working(s)
            == s.drop_last()),
{
}

} // verus!
