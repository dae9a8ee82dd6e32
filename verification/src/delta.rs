//! Delta patches between similar binaries, and the grouping that decides
//! which binary is patched against which.

use vstd::prelude::*;
use vstd::slice::slice_subrange;
use vstd::string::StringExecFns;
use vstd::string::StringSliceAdditionalSpecFns;
use vstd::utf8::encode_utf8;
use crate::error::{io_error_text, CompressionError};
use crate::text::bytes_equal;

verus! {

// ---------------------------------------------------------------------------
// Patches
// ---------------------------------------------------------------------------

/// What applying `patch` to `reference` gives, if `patch` is a patch that can
/// be applied to it.
pub uninterp spec fn patch_applied(reference: Seq<u8>, patch: Seq<u8>) -> Option<Seq<u8>>;

/// The largest reference that a patch can be made against: the suffix sort
/// indexes it with 32-bit signed numbers.
pub const MAX_REFERENCE_SIZE: usize = 0x7FFF_FFFE;

/// `bidiff::simple_diff`, writing into a fresh vector. The function sorts the
/// suffixes of `reference`, which it refuses to do with 2^31 - 1 bytes or
/// more, and looks every piece of a non-empty `target` up in that index, which
/// has no entry to find when `reference` is empty; both inputs are left out.
/// Its only errors are those of the writer that it is given, and a vector
/// takes whatever is written to it; so there is a patch, and it is one that
/// `bipatch` turns back into `target` when it is given `reference`.
#[verifier::external_body]
fn diff_with_bidiff(reference: &[u8], target: &[u8]) -> (r: Result<Vec<u8>, std::io::Error>)
    requires
        reference@.len() <= MAX_REFERENCE_SIZE,
        reference@.len() > 0 || target@.len() == 0,
    ensures
        r is Ok,
        r matches Ok(patch) ==> patch_applied(reference@, patch@) == Some(target@),
{
    let mut patch = Vec::new();
    bidiff::simple_diff(reference, target, &mut patch)?;
    Ok(patch)
}

/// Why a patch could not be applied: its first eight bytes are not the magic
/// number and the version of the format, or what follows them cannot be
/// carried out. Each holds the text of the error.
pub(crate) enum PatchFailure {
    Unreadable(String),
    Broken(String),
}

/// `bipatch::Reader::new` over `patch` and `reference`, then `read_to_end` on
/// the reader. The reader works on the two buffers alone, so that what it
/// gives, or that it fails, is a function of them: `patch_applied`.
#[verifier::external_body]
fn apply_with_bipatch(reference: &[u8], patch: &[u8]) -> (r: Result<Vec<u8>, PatchFailure>)
    ensures
        match r {
            Ok(target) => patch_applied(reference@, patch@) == Some(target@),
            Err(_) => patch_applied(reference@, patch@) is None,
        },
{
    let patch_reader = std::io::Cursor::new(patch);
    let old_reader = std::io::Cursor::new(reference);
    let mut reader = match bipatch::Reader::new(patch_reader, old_reader) {
        Ok(reader) => reader,
        Err(e) => return Err(PatchFailure::Unreadable(format!("{}", e))),
    };
    let mut target = Vec::new();
    match std::io::Read::read_to_end(&mut reader, &mut target) {
        Ok(_) => Ok(target),
        Err(e) => Err(PatchFailure::Broken(format!("{}", e))),
    }
}

/// Whether a patch against `reference` that gives `target` can be asked for.
pub open spec fn can_diff(reference: Seq<u8>, target: Seq<u8>) -> bool {
    reference.len() <= MAX_REFERENCE_SIZE && (reference.len() > 0 || target.len() == 0)
}

/// Makes a patch that turns `reference` into `target`. No patch can be made
/// against an empty reference, unless the target is empty too, nor against one
/// of 2^31 - 1 bytes or more; these are delta errors. Every other pair has a
/// patch.
pub fn create_patch(reference: &[u8], target: &[u8]) -> (r: Result<Vec<u8>, CompressionError>)
    ensures
        match r {
            Ok(patch) => can_diff(reference@, target@) && patch_applied(reference@, patch@)
                == Some(target@),
            Err(CompressionError::Delta(_)) => !can_diff(reference@, target@),
            Err(_) => false,
        },
{
    if reference.len() > MAX_REFERENCE_SIZE {
        return Err(CompressionError::Delta("Failed to create patch: reference too large".to_owned()));
    }
    if reference.len() == 0 && target.len() != 0 {
        return Err(CompressionError::Delta("Failed to create patch: empty reference".to_owned()));
    }
    match diff_with_bidiff(reference, target) {
        Ok(patch) => Ok(patch),
        Err(e) => {
            let mut message = "Failed to create patch: ".to_owned();
            message.append(io_error_text(&e).as_str());
            Err(CompressionError::Delta(message))
        },
    }
}

/// Applies `patch` to `reference`.
pub fn apply_patch(reference: &[u8], patch: &[u8]) -> (r: Result<Vec<u8>, CompressionError>)
    ensures
        match r {
            Ok(target) => patch_applied(reference@, patch@) == Some(target@),
            Err(CompressionError::Delta(_)) => patch_applied(reference@, patch@) is None,
            Err(_) => false,
        },
{
    match apply_with_bipatch(reference, patch) {
        Ok(target) => Ok(target),
        Err(PatchFailure::Unreadable(text)) => {
            let mut message = "Failed to read patch: ".to_owned();
            message.append(text.as_str());
            Err(CompressionError::Delta(message))
        },
        Err(PatchFailure::Broken(text)) => {
            let mut message = "Failed to apply patch: ".to_owned();
            message.append(text.as_str());
            Err(CompressionError::Delta(message))
        },
    }
}

// ---------------------------------------------------------------------------
// Similarity
// ---------------------------------------------------------------------------

/// A bound for similarity: the rational number `numerator / denominator`. With
/// a denominator of zero it is met by nothing, unless the numerator is zero
/// too and everything meets it.
#[derive(Debug, Clone, Copy, PartialEq, Eq, Structural)]
pub struct Threshold {
    pub numerator: u32,
    pub denominator: u32,
}

/// An exact ratio of two natural numbers, the second above zero.
#[derive(Debug, Clone, Copy)]
pub struct Ratio {
    numerator: u128,
    denominator: u128,
}

/// The length of the shorter of two byte strings.
pub open spec fn shorter_len(a: Seq<u8>, b: Seq<u8>) -> nat {
    if a.len() <= b.len() {
        a.len()
    } else {
        b.len()
    }
}

/// The length of the longer of two byte strings.
pub open spec fn longer_len(a: Seq<u8>, b: Seq<u8>) -> nat {
    if a.len() <= b.len() {
        b.len()
    } else {
        a.len()
    }
}

/// How many places of two byte strings are compared: 1024, or every place of
/// the shorter if it has fewer.
pub open spec fn sample_count(a: Seq<u8>, b: Seq<u8>) -> nat {
    if shorter_len(a, b) < 1024 {
        shorter_len(a, b)
    } else {
        1024
    }
}

/// At how many of the places `0`, `step`, ..., `(count - 1) * step` the two
/// byte strings hold the same byte.
pub open spec fn matches_upto(a: Seq<u8>, b: Seq<u8>, step: int, count: int) -> nat
    decreases count,
{
    if count <= 0 {
        0
    } else {
        matches_upto(a, b, step, count - 1) + if a[(count - 1) * step] == b[(count - 1) * step] {
            1nat
        } else {
            0nat
        }
    }
}

/// The similarity of two byte strings as a numerator and a denominator. Two
/// empty strings are alike (1); an empty and a non-empty one are not (0);
/// where one is more than twice as long as the other it is half the ratio of
/// the lengths; else it is the share of equal bytes among the sampled places,
/// times the ratio of the lengths.
pub open spec fn similarity(a: Seq<u8>, b: Seq<u8>) -> (nat, nat) {
    let shorter = shorter_len(a, b);
    let longer = longer_len(a, b);
    if longer == 0 {
        (1, 1)
    } else if shorter == 0 {
        (0, 1)
    } else if 2 * shorter < longer {
        (shorter, 2 * longer)
    } else {
        let count = sample_count(a, b);
        (matches_upto(a, b, (shorter / count) as int, count as int) * shorter, count * longer)
    }
}

/// Whether the ratio `s` is at least the threshold `t`.
pub open spec fn meets(s: (nat, nat), t: Threshold) -> bool {
    s.0 * t.denominator >= t.numerator * s.1
}

impl Ratio {
    #[verifier::type_invariant]
    spec fn well_formed(self) -> bool {
        0 < self.denominator && self.numerator < 0x1_0000_0000_0000_0000_0000_0000
            && self.denominator < 0x1_0000_0000_0000_0000_0000_0000
    }

    /// The numerator and the denominator.
    pub closed spec fn parts(self) -> (nat, nat) {
        (self.numerator as nat, self.denominator as nat)
    }

    /// The ratio `numerator / denominator`, if the denominator is not zero
    /// and both are below 2^96.
    pub fn new(numerator: u128, denominator: u128) -> (r: Option<Ratio>)
        ensures
            match r {
                Some(ratio) => ratio.parts() == (numerator as nat, denominator as nat),
                None => denominator == 0 || numerator >= 0x1_0000_0000_0000_0000_0000_0000
                    || denominator >= 0x1_0000_0000_0000_0000_0000_0000,
            },
            0 < denominator < 0x1_0000_0000_0000_0000_0000_0000 && numerator
                < 0x1_0000_0000_0000_0000_0000_0000 ==> r is Some,
    {
        if denominator == 0 || numerator >= 0x1_0000_0000_0000_0000_0000_0000 || denominator
            >= 0x1_0000_0000_0000_0000_0000_0000 {
            None
        } else {
            Some(Ratio { numerator, denominator })
        }
    }

    /// The numerator.
    pub fn numerator(&self) -> (n: u128)
        ensures
            n == self.parts().0,
    {
        self.numerator
    }

    /// The denominator, which is not zero.
    pub fn denominator(&self) -> (d: u128)
        ensures
            d == self.parts().1,
            d > 0,
    {
        proof {
            use_type_invariant(self);
        }
        self.denominator
    }

    /// The ratio 0.
    pub fn zero() -> (r: Ratio)
        ensures
            r.parts() == (0nat, 1nat),
    {
        Ratio { numerator: 0, denominator: 1 }
    }

    /// Whether this ratio is at least `threshold`.
    pub fn at_least(&self, threshold: Threshold) -> (r: bool)
        ensures
            r == meets(self.parts(), threshold),
    {
        proof {
            use_type_invariant(self);
        }
        let n = self.numerator;
        let d = self.denominator;
        let tn = threshold.numerator as u128;
        let td = threshold.denominator as u128;
        assert(n * td < 0x1_0000_0000_0000_0000_0000_0000_0000_0000 && tn * d
            < 0x1_0000_0000_0000_0000_0000_0000_0000_0000) by (nonlinear_arith)
            requires
                n < 0x1_0000_0000_0000_0000_0000_0000,
                d < 0x1_0000_0000_0000_0000_0000_0000,
                tn < 0x1_0000_0000,
                td < 0x1_0000_0000,
        ;
        n * td >= tn * d
    }
}

proof fn lemma_sample_place(shorter: int, count: int, i: int)
    requires
        0 < count <= shorter,
        0 <= i < count,
    ensures
        0 <= i * (shorter / count) < shorter,
        (i + 1) * (shorter / count) == i * (shorter / count) + shorter / count,
{
    let step = shorter / count;
    assert(count * step <= shorter) by (nonlinear_arith)
        requires
            0 < count,
            0 <= shorter,
            step == shorter / count,
    ;
    assert(step >= 1) by (nonlinear_arith)
        requires
            0 < count <= shorter,
            step == shorter / count,
    ;
    assert(0 <= i * step && (i + 1) * step <= count * step && (i + 1) * step == i * step + step)
        by (nonlinear_arith)
        requires
            0 <= i < count,
            step >= 1,
    ;
}

proof fn lemma_matches_bound(a: Seq<u8>, b: Seq<u8>, step: int, count: int)
    requires
        0 <= count,
    ensures
        matches_upto(a, b, step, count) <= count,
        matches_upto(a, b, step, count) == matches_upto(b, a, step, count),
        a == b ==> matches_upto(a, b, step, count) == count,
    decreases count,
{
    if count > 0 {
        lemma_matches_bound(a, b, step, count - 1);
    }
}

/// How alike two binaries are, from 0 (nothing in common) to 1 (the same).
pub fn similarity_ratio(a: &[u8], b: &[u8]) -> (r: Ratio)
    ensures
        r.parts() == similarity(a@, b@),
{
    let shorter = if a.len() <= b.len() {
        a.len()
    } else {
        b.len()
    };
    let longer = if a.len() <= b.len() {
        b.len()
    } else {
        a.len()
    };
    if longer == 0 {
        return Ratio { numerator: 1, denominator: 1 };
    }
    if shorter == 0 {
        return Ratio { numerator: 0, denominator: 1 };
    }
    if (shorter as u128) * 2 < longer as u128 {
        return Ratio { numerator: shorter as u128, denominator: 2 * (longer as u128) };
    }
    let count: usize = if shorter < 1024 {
        shorter
    } else {
        1024
    };
    let step = shorter / count;
    let mut matches: usize = 0;
    let mut i: usize = 0;
    while i < count
        invariant
            i <= count,
            0 < count <= shorter,
            step == shorter / count,
            shorter <= a@.len(),
            shorter <= b@.len(),
            matches == matches_upto(a@, b@, step as int, i as int),
            matches <= i,
        decreases count - i,
    {
        proof {
            lemma_sample_place(shorter as int, count as int, i as int);
        }
        let place = i * step;
        if a[place] == b[place] {
            matches += 1;
        }
        i += 1;
    }
    assert((matches as u128) * (shorter as u128) < 0x1_0000_0000_0000_0000_0000_0000 && 0 < (
    count as u128) * (longer as u128) < 0x1_0000_0000_0000_0000_0000_0000) by (nonlinear_arith)
        requires
            matches <= 1024,
            0 < count <= 1024,
            shorter <= 0xFFFF_FFFF_FFFF_FFFF,
            0 < longer <= 0xFFFF_FFFF_FFFF_FFFF,
    ;
    let numerator = (matches as u128) * (shorter as u128);
    let denominator = (count as u128) * (longer as u128);
    Ratio { numerator, denominator }
}

/// A similarity lies between 0 and 1.
pub proof fn lemma_similarity_in_unit_interval(a: Seq<u8>, b: Seq<u8>)
    ensures
        similarity(a, b).1 > 0,
        similarity(a, b).0 <= similarity(a, b).1,
{
    let shorter = shorter_len(a, b);
    let longer = longer_len(a, b);
    if longer != 0 && shorter != 0 && 2 * shorter >= longer {
        let count = sample_count(a, b);
        let m = matches_upto(a, b, (shorter / count) as int, count as int);
        lemma_matches_bound(a, b, (shorter / count) as int, count as int);
        assert(m * shorter <= count * longer && count * longer > 0) by (nonlinear_arith)
            requires
                m <= count,
                0 < count,
                shorter <= longer,
                0 < longer,
        ;
    }
}

/// The similarity of `a` and `b` is that of `b` and `a`.
pub proof fn lemma_similarity_symmetric(a: Seq<u8>, b: Seq<u8>)
    ensures
        similarity(a, b) == similarity(b, a),
{
    let shorter = shorter_len(a, b);
    let count = sample_count(a, b);
    if count > 0 {
        lemma_matches_bound(a, b, (shorter / count) as int, count as int);
    }
}

/// A binary that is not empty is as like itself as can be: the similarity is
/// 1.
pub proof fn lemma_similarity_identical(a: Seq<u8>)
    requires
        a.len() > 0,
    ensures
        similarity(a, a).0 == similarity(a, a).1,
{
    let count = sample_count(a, a);
    lemma_matches_bound(a, a, (a.len() / count) as int, count as int);
}

// ---------------------------------------------------------------------------
// Grouping
// ---------------------------------------------------------------------------

/// The index behind the last `-` among the first `end` bytes of `name`, 0 if
/// there is none.
pub open spec fn suffix_start(name: Seq<u8>, end: int) -> int
    decreases end,
{
    if end <= 0 {
        0
    } else if name[end - 1] == 0x2D {
        end
    } else {
        suffix_start(name, end - 1)
    }
}

/// The architecture that a target name ends with: what follows its last `-`,
/// or all of it.
pub open spec fn arch_suffix(name: Seq<u8>) -> Seq<u8> {
    name.subrange(suffix_start(name, name.len() as int), name.len() as int)
}

/// The architecture that a target name ends with, as bytes.
pub fn extract_arch(target: &str) -> (arch: &[u8])
    ensures
        arch@ == arch_suffix(target.spec_bytes()),
{
    let name = target.as_bytes();
    let mut k: usize = name.len();
    while k > 0 && name[k - 1] != 0x2D
        invariant
            k <= name@.len(),
            suffix_start(name@, name@.len() as int) == suffix_start(name@, k as int),
        decreases k,
    {
        k -= 1;
    }
    slice_subrange(name, k, name.len())
}

/// A group of binaries that are stored together: one in full, the others as
/// patches against it where that is smaller.
#[derive(Debug)]
pub struct DeltaGroup {
    /// The target of the reference, which is stored in full.
    pub reference_target: String,
    /// The targets of the other members, in input order.
    pub delta_targets: Vec<String>,
    /// The input index of the reference.
    pub reference_index: usize,
    /// The input indices of the other members, ascending.
    pub delta_indices: Vec<usize>,
}

/// The name and the bytes of each binary of a batch.
pub open spec fn pair_views(binaries: Seq<(String, Vec<u8>)>) -> Seq<(Seq<char>, Seq<u8>)> {
    Seq::new(binaries.len(), |k: int| (binaries[k].0@, binaries[k].1@))
}

/// Whether input `j` may join the group of input `i`: both names end with the
/// same architecture, and the binaries are at least as similar as `t` asks.
pub open spec fn joins(inputs: Seq<(Seq<char>, Seq<u8>)>, t: Threshold, i: int, j: int) -> bool {
    &&& arch_suffix(encode_utf8(inputs[i].0)) == arch_suffix(encode_utf8(inputs[j].0))
    &&& meets(similarity(inputs[i].1, inputs[j].1), t)
}

/// The reference of the group that input `j` belongs to: the first reference
/// before `j` that `j` may join, or `j` itself, which then is a reference.
pub open spec fn owner(inputs: Seq<(Seq<char>, Seq<u8>)>, t: Threshold, j: int) -> int
    decreases j, j + 1,
{
    if j < 0 {
        j
    } else {
        first_owner(inputs, t, j, 0)
    }
}

/// The first reference from `i` on and before `j` that `j` may join, or `j`.
pub open spec fn first_owner(inputs: Seq<(Seq<char>, Seq<u8>)>, t: Threshold, j: int, i: int) -> int
    decreases j, j - i,
{
    if i < 0 || i >= j {
        j
    } else if owner(inputs, t, i) == i && joins(inputs, t, i, j) {
        i
    } else {
        first_owner(inputs, t, j, i + 1)
    }
}

/// The references among the first `n` inputs, ascending.
pub open spec fn references(inputs: Seq<(Seq<char>, Seq<u8>)>, t: Threshold, n: int) -> Seq<int>
    decreases n,
{
    if n <= 0 {
        Seq::empty()
    } else if owner(inputs, t, n - 1) == n - 1 {
        references(inputs, t, n - 1).push(n - 1)
    } else {
        references(inputs, t, n - 1)
    }
}

/// The inputs before `n` that belong to the group of the reference `r`
/// without being `r`, ascending.
pub open spec fn members(inputs: Seq<(Seq<char>, Seq<u8>)>, t: Threshold, r: int, n: int) -> Seq<
    int,
>
    decreases n,
{
    if n <= 0 {
        Seq::empty()
    } else if n - 1 != r && owner(inputs, t, n - 1) == r {
        members(inputs, t, r, n - 1).push(n - 1)
    } else {
        members(inputs, t, r, n - 1)
    }
}

/// Whether `group` is the group of the reference `r`.
pub open spec fn group_of(
    inputs: Seq<(Seq<char>, Seq<u8>)>,
    t: Threshold,
    group: DeltaGroup,
    r: int,
) -> bool {
    &&& group.reference_index == r
    &&& group.reference_target@ == inputs[r].0
    &&& group.delta_indices@.len() == members(inputs, t, r, inputs.len() as int).len()
    &&& group.delta_targets@.len() == group.delta_indices@.len()
    &&& forall|k: int|
        0 <= k < group.delta_indices@.len() ==> {
            &&& #[trigger] group.delta_indices@[k] == members(
                inputs,
                t,
                r,
                inputs.len() as int,
            )[k]
            &&& group.delta_targets@[k]@ == inputs[group.delta_indices@[k] as int].0
        }
}

/// Whether `groups` is the grouping of `inputs`: one group for each reference,
/// in input order.
pub open spec fn grouped(inputs: Seq<(Seq<char>, Seq<u8>)>, t: Threshold, groups: Seq<DeltaGroup>) -> bool {
    &&& groups.len() == references(inputs, t, inputs.len() as int).len()
    &&& forall|g: int|
        0 <= g < groups.len() ==> group_of(
            inputs,
            t,
            #[trigger] groups[g],
            references(inputs, t, inputs.len() as int)[g],
        )
}

proof fn lemma_first_owner(inputs: Seq<(Seq<char>, Seq<u8>)>, t: Threshold, j: int, i: int)
    requires
        0 <= i <= j,
    ensures
        i <= first_owner(inputs, t, j, i) <= j,
        first_owner(inputs, t, j, i) < j ==> owner(inputs, t, first_owner(inputs, t, j, i))
            == first_owner(inputs, t, j, i) && joins(
            inputs,
            t,
            first_owner(inputs, t, j, i),
            j,
        ),
        forall|r: int|
            i <= r < first_owner(inputs, t, j, i) ==> !(owner(inputs, t, r) == r && joins(
                inputs,
                t,
                r,
                j,
            )),
    decreases j - i,
{
    if i < j && !(owner(inputs, t, i) == i && joins(inputs, t, i, j)) {
        lemma_first_owner(inputs, t, j, i + 1);
    }
}

/// Every input belongs to the group of exactly one reference, its owner. The
/// owner is no later in the input than the input itself, and an input that is
/// not its own owner may join it: their names end with the same architecture
/// and they are similar enough.
pub proof fn lemma_owner(inputs: Seq<(Seq<char>, Seq<u8>)>, t: Threshold, j: int)
    requires
        0 <= j,
    ensures
        0 <= owner(inputs, t, j) <= j,
        owner(inputs, t, owner(inputs, t, j)) == owner(inputs, t, j),
        owner(inputs, t, j) != j ==> joins(inputs, t, owner(inputs, t, j), j),
        forall|r: int|
            0 <= r < owner(inputs, t, j) ==> !(owner(inputs, t, r) == r && joins(inputs, t, r, j)),
{
    lemma_first_owner(inputs, t, j, 0);
}

/// The references are the inputs that own themselves, and the members of a
/// group are the later inputs that the reference owns: each input stands in
/// the list of references or in the member list of its owner, and nowhere
/// else.
pub proof fn lemma_group_membership(
    inputs: Seq<(Seq<char>, Seq<u8>)>,
    t: Threshold,
    r: int,
    n: int,
    j: int,
)
    requires
        0 <= n,
    ensures
        references(inputs, t, n).contains(j) <==> (0 <= j < n && owner(inputs, t, j) == j),
        members(inputs, t, r, n).contains(j) <==> (0 <= j < n && j != r && owner(inputs, t, j)
            == r),
    decreases n,
{
    if n > 0 {
        lemma_group_membership(inputs, t, r, n - 1, j);
        let refs = references(inputs, t, n - 1);
        let mems = members(inputs, t, r, n - 1);
        if owner(inputs, t, n - 1) == n - 1 {
            let full = refs.push(n - 1);
            assert(full[refs.len() as int] == n - 1);
            if refs.contains(j) {
                let k = choose|k: int| 0 <= k < refs.len() && refs[k] == j;
                assert(full[k] == j);
            }
        }
        if n - 1 != r && owner(inputs, t, n - 1) == r {
            let full = mems.push(n - 1);
            assert(full[mems.len() as int] == n - 1);
            if mems.contains(j) {
                let k = choose|k: int| 0 <= k < mems.len() && mems[k] == j;
                assert(full[k] == j);
            }
        }
    }
}

/// With a threshold whose denominator is zero and whose numerator is not, no
/// input joins another: each is the reference of a group of its own.
pub proof fn lemma_never_joins(inputs: Seq<(Seq<char>, Seq<u8>)>, n: int)
    requires
        0 <= n,
    ensures
        references(inputs, Threshold { numerator: 1, denominator: 0 }, n) == Seq::new(
            n as nat,
            |k: int| k,
        ),
        forall|r: int, m: int|
            0 <= m ==> (#[trigger] members(
                inputs,
                Threshold { numerator: 1, denominator: 0 },
                r,
                m,
            )).len() == 0,
        forall|j: int|
            0 <= j ==> #[trigger] owner(inputs, Threshold { numerator: 1, denominator: 0 }, j)
                == j,
    decreases n,
{
    let t = Threshold { numerator: 1, denominator: 0 };
    assert forall|j: int| 0 <= j implies #[trigger] owner(inputs, t, j) == j by {
        lemma_owner(inputs, t, j);
        if owner(inputs, t, j) != j {
            lemma_similarity_in_unit_interval(inputs[owner(inputs, t, j)].1, inputs[j].1);
        }
    }
    assert forall|r: int, m: int| 0 <= m implies (#[trigger] members(inputs, t, r, m)).len()
        == 0 by {
        lemma_no_members(inputs, t, r, m);
    }
    if n > 0 {
        lemma_never_joins(inputs, n - 1);
        assert(references(inputs, t, n) =~= Seq::new(n as nat, |k: int| k));
    }
}

proof fn lemma_no_members(inputs: Seq<(Seq<char>, Seq<u8>)>, t: Threshold, r: int, m: int)
    requires
        0 <= m,
        forall|j: int| 0 <= j ==> #[trigger] owner(inputs, t, j) == j,
    ensures
        members(inputs, t, r, m).len() == 0,
    decreases m,
{
    if m > 0 {
        lemma_no_members(inputs, t, r, m - 1);
    }
}

/// Finds for each binary the reference of its group. Going through the input
/// in order, a binary that no earlier group has taken opens a group as its
/// reference, and the group takes every later binary not yet taken whose name
/// ends with the same architecture and whose similarity to the reference is at
/// least `threshold`.
pub fn assign_references(binaries: &[(String, Vec<u8>)], threshold: Threshold) -> (table: Vec<
    usize,
>)
    ensures
        table@.len() == binaries@.len(),
        forall|j: int|
            0 <= j < table@.len() ==> #[trigger] table@[j] == owner(
                pair_views(binaries@),
                threshold,
                j,
            ),
{
    let n = binaries.len();
    let ghost inputs = pair_views(binaries@);
    let mut table: Vec<usize> = Vec::new();
    let mut fill: usize = 0;
    while fill < n
        invariant
            fill <= n,
            table@.len() == fill,
            forall|k: int| 0 <= k < fill ==> table@[k] == n,
        decreases n - fill,
    {
        table.push(n);
        fill += 1;
    }
    assert forall|k: int| 0 <= k < n implies 0 <= #[trigger] owner(inputs, threshold, k) <= k
        && owner(inputs, threshold, owner(inputs, threshold, k)) == owner(
        inputs,
        threshold,
        k,
    ) by {
        lemma_owner(inputs, threshold, k);
    }
    let mut i: usize = 0;
    while i < n
        invariant
            i <= n,
            n == inputs.len(),
            inputs == pair_views(binaries@),
            table@.len() == n,
            forall|k: int|
                0 <= k < n ==> 0 <= #[trigger] owner(inputs, threshold, k) <= k && owner(
                    inputs,
                    threshold,
                    owner(inputs, threshold, k),
                ) == owner(inputs, threshold, k),
            forall|k: int|
                0 <= k < n ==> #[trigger] table@[k] == if k < i || owner(inputs, threshold, k)
                    < i {
                    owner(inputs, threshold, k)
                } else {
                    n as int
                },
        decreases n - i,
    {
        if table[i] == n {
            table[i] = i;
            let mut j: usize = i + 1;
            while j < n
                invariant
                    i < j <= n,
                    n == inputs.len(),
                    inputs == pair_views(binaries@),
                    table@.len() == n,
                    owner(inputs, threshold, i as int) == i,
                    forall|k: int|
                        0 <= k < n ==> 0 <= #[trigger] owner(inputs, threshold, k) <= k,
                    forall|k: int|
                        0 <= k < n ==> #[trigger] table@[k] == if k <= i || owner(
                            inputs,
                            threshold,
                            k,
                        ) < i || (k < j && owner(inputs, threshold, k) == i) {
                            owner(inputs, threshold, k)
                        } else {
                            n as int
                        },
                decreases n - j,
            {
                proof {
                    lemma_owner(inputs, threshold, j as int);
                }
                let mut take = false;
                if table[j] == n {
                    let same = bytes_equal(
                        extract_arch(binaries[i].0.as_str()),
                        extract_arch(binaries[j].0.as_str()),
                    );
                    if same {
                        let ratio = similarity_ratio(
                            binaries[i].1.as_slice(),
                            binaries[j].1.as_slice(),
                        );
                        take = ratio.at_least(threshold);
                    }
                    assert(take == joins(inputs, threshold, i as int, j as int));
                }
                assert(take == (owner(inputs, threshold, j as int) == i));
                if take {
                    table[j] = i;
                }
                j += 1;
            }
        }
        i += 1;
    }
    table
}

/// Groups binaries for delta compression: one group for each reference that
/// `assign_references` finds, in input order, with the binaries that it took.
pub fn group_by_similarity(binaries: &[(String, Vec<u8>)], threshold: Threshold) -> (groups: Vec<
    DeltaGroup,
>)
    ensures
        grouped(pair_views(binaries@), threshold, groups@),
{
    let n = binaries.len();
    let ghost inputs = pair_views(binaries@);
    let table = assign_references(binaries, threshold);
    let mut groups: Vec<DeltaGroup> = Vec::new();
    let mut i: usize = 0;
    while i < n
        invariant
            i <= n,
            n == inputs.len(),
            inputs == pair_views(binaries@),
            table@.len() == n,
            forall|j: int| 0 <= j < n ==> #[trigger] table@[j] == owner(inputs, threshold, j),
            groups@.len() == references(inputs, threshold, i as int).len(),
            forall|g: int|
                0 <= g < groups@.len() ==> group_of(
                    inputs,
                    threshold,
                    #[trigger] groups@[g],
                    references(inputs, threshold, i as int)[g],
                ),
        decreases n - i,
    {
        if table[i] == i {
            let mut delta_targets: Vec<String> = Vec::new();
            let mut delta_indices: Vec<usize> = Vec::new();
            let mut j: usize = 0;
            while j < n
                invariant
                    j <= n,
                    i < n,
                    n == inputs.len(),
                    inputs == pair_views(binaries@),
                    table@.len() == n,
                    forall|j: int|
                        0 <= j < n ==> #[trigger] table@[j] == owner(inputs, threshold, j),
                    delta_indices@.len() == members(inputs, threshold, i as int, j as int).len(),
                    delta_targets@.len() == delta_indices@.len(),
                    forall|k: int|
                        0 <= k < delta_indices@.len() ==> {
                            &&& #[trigger] delta_indices@[k] == members(
                                inputs,
                                threshold,
                                i as int,
                                j as int,
                            )[k]
                            &&& delta_targets@[k]@ == inputs[delta_indices@[k] as int].0
                        },
                decreases n - j,
            {
                if j != i && table[j] == i {
                    delta_targets.push(binaries[j].0.clone());
                    delta_indices.push(j);
                }
                j += 1;
            }
            let group = DeltaGroup {
                reference_target: binaries[i].0.clone(),
                delta_targets,
                reference_index: i,
                delta_indices,
            };
            assert(group_of(inputs, threshold, group, i as int));
            let ghost before = groups@;
            groups.push(group);
            assert forall|g: int| 0 <= g < groups@.len() implies group_of(
                inputs,
                threshold,
                #[trigger] groups@[g],
                references(inputs, threshold, i + 1)[g],
            ) by {
                if g < before.len() {
                    assert(groups@[g] == before[g]);
                }
            }
        }
        i += 1;
    }
    groups
}

} // verus!
