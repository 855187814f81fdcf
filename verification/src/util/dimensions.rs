//! Dimensions: the shape of a multi-dimensional array sample, one size per
//! dimension (none for a scalar).

use vstd::prelude::*;
use vstd::string::*;
use smallvec::SmallVec;
use crate::util::text::{decimal_digits, push_decimal};

verus! {

/// The sizes, held in a small inline vector of the `smallvec` crate (Verus
/// does not accept a declaration of that generic type, so it is kept here,
/// opaque, and reached only through the functions below).
#[verifier::external_body]
#[derive(Debug)]
pub struct SmallSizes {
    inner: SmallVec<[usize; 4]>,
}

/// The sizes a small vector holds, in order.
pub uninterp spec fn small_sizes(v: SmallSizes) -> Seq<usize>;

/// `SmallVec::new`: an empty vector.
#[verifier::external_body]
fn sizes_new() -> (r: SmallSizes)
    ensures
        small_sizes(r) == Seq::<usize>::empty(),
{
    SmallSizes { inner: SmallVec::new() }
}

/// `SmallVec::from_slice`: a vector holding a copy of the slice.
#[verifier::external_body]
fn sizes_from_slice(s: &[usize]) -> (r: SmallSizes)
    ensures
        small_sizes(r) == s@,
{
    SmallSizes { inner: SmallVec::from_slice(s) }
}

/// `SmallVec::from_vec`: a vector holding the vector's items.
#[verifier::external_body]
fn sizes_from_vec(v: Vec<usize>) -> (r: SmallSizes)
    ensures
        small_sizes(r) == v@,
{
    SmallSizes { inner: SmallVec::from_vec(v) }
}

/// `SmallVec::as_slice`: the items as a slice.
#[verifier::external_body]
fn sizes_slice(v: &SmallSizes) -> (r: &[usize])
    ensures
        r@ == small_sizes(*v),
{
    v.inner.as_slice()
}

/// `SmallVec::push`: the item appended at the end (the length must stay
/// below `usize::MAX`, where the crate panics).
#[verifier::external_body]
fn sizes_push(v: &mut SmallSizes, x: usize)
    requires
        small_sizes(*old(v)).len() < usize::MAX,
    ensures
        small_sizes(*final(v)) == small_sizes(*old(v)).push(x),
{
    v.inner.push(x)
}

/// Writing through `SmallVec::as_mut_slice`: item `i` replaced.
#[verifier::external_body]
fn sizes_set(v: &mut SmallSizes, i: usize, x: usize)
    requires
        i < small_sizes(*old(v)).len(),
    ensures
        small_sizes(*final(v)) == small_sizes(*old(v)).update(i as int, x),
{
    v.inner.as_mut_slice()[i] = x;
}

/// `SmallVec::resize`: truncated to `len`, or extended with copies of
/// `value` up to `len`.
#[verifier::external_body]
fn sizes_resize(v: &mut SmallSizes, len: usize, value: usize)
    ensures
        small_sizes(*final(v)) == if len <= small_sizes(*old(v)).len() {
            small_sizes(*old(v)).subrange(0, len as int)
        } else {
            small_sizes(*old(v)) + Seq::new((len - small_sizes(*old(v)).len()) as nat, |k: int| value)
        },
{
    v.inner.resize(len, value)
}

/// The product of the sizes.
pub open spec fn sizes_product(d: Seq<usize>) -> int
    decreases d.len(),
{
    if d.len() == 0 {
        1
    } else {
        sizes_product(d.drop_last()) * d.last()
    }
}

/// Every partial product of the sizes fits a `usize`.
pub open spec fn products_fit(d: Seq<usize>) -> bool {
    forall|k: int| 0 <= k <= d.len() ==> #[trigger] sizes_product(d.subrange(0, k)) <= usize::MAX
}

/// The text of a list of sizes: `[]`, or the sizes in decimal between
/// brackets, separated by ` x `.
pub open spec fn sizes_text(d: Seq<usize>) -> Seq<char> {
    seq!['['] + sizes_inner(d) + seq![']']
}

/// The sizes in decimal separated by ` x `.
pub open spec fn sizes_inner(d: Seq<usize>) -> Seq<char>
    decreases d.len(),
{
    if d.len() == 0 {
        Seq::empty()
    } else if d.len() == 1 {
        decimal_digits(d[0] as nat)
    } else {
        sizes_inner(d.drop_last()) + " x "@ + decimal_digits(d.last() as nat)
    }
}

/// Dimensions of a multi-dimensional array.
#[derive(Debug)]
pub struct Dimensions {
    dims: SmallSizes,
}

impl Dimensions {
    /// The sizes, first dimension first.
    pub closed spec fn view_sizes(&self) -> Seq<usize> {
        small_sizes(self.dims)
    }

    /// Scalar dimensions (rank 0).
    pub fn scalar() -> (r: Self)
        ensures
            r.view_sizes() == Seq::<usize>::empty(),
    {
        Dimensions { dims: sizes_new() }
    }

    /// One dimension.
    pub fn d1(size: usize) -> (r: Self)
        ensures
            r.view_sizes() == seq![size],
    {
        let mut v: Vec<usize> = Vec::new();
        v.push(size);
        assert(v@ =~= seq![size]);
        Dimensions { dims: sizes_from_slice(v.as_slice()) }
    }

    /// Two dimensions.
    pub fn d2(width: usize, height: usize) -> (r: Self)
        ensures
            r.view_sizes() == seq![width, height],
    {
        let mut v: Vec<usize> = Vec::new();
        v.push(width);
        v.push(height);
        assert(v@ =~= seq![width, height]);
        Dimensions { dims: sizes_from_slice(v.as_slice()) }
    }

    /// Three dimensions.
    pub fn d3(width: usize, height: usize, depth: usize) -> (r: Self)
        ensures
            r.view_sizes() == seq![width, height, depth],
    {
        let mut v: Vec<usize> = Vec::new();
        v.push(width);
        v.push(height);
        v.push(depth);
        assert(v@ =~= seq![width, height, depth]);
        Dimensions { dims: sizes_from_slice(v.as_slice()) }
    }

    /// Dimensions with the given sizes.
    pub fn from_slice(sizes: &[usize]) -> (r: Self)
        ensures
            r.view_sizes() == sizes@,
    {
        Dimensions { dims: sizes_from_slice(sizes) }
    }

    /// Dimensions holding a vector's sizes.
    pub fn from_vec(sizes: Vec<usize>) -> (r: Self)
        ensures
            r.view_sizes() == sizes@,
    {
        Dimensions { dims: sizes_from_vec(sizes) }
    }

    /// The number of dimensions.
    pub fn rank(&self) -> (r: usize)
        ensures
            r == self.view_sizes().len(),
    {
        sizes_slice(&self.dims).len()
    }

    /// The size of dimension `dim`, if there is one.
    pub fn size(&self, dim: usize) -> (r: Option<usize>)
        ensures
            dim < self.view_sizes().len() ==> r == Some(self.view_sizes()[dim as int]),
            dim >= self.view_sizes().len() ==> r is None,
    {
        let s = sizes_slice(&self.dims);
        if dim < s.len() {
            Some(s[dim])
        } else {
            None
        }
    }

    /// All sizes.
    pub fn sizes(&self) -> (r: &[usize])
        ensures
            r@ == self.view_sizes(),
    {
        sizes_slice(&self.dims)
    }

    /// The number of elements: the product of the sizes (1 for a scalar).
    pub fn num_points(&self) -> (r: usize)
        requires
            products_fit(self.view_sizes()),
        ensures
            r == sizes_product(self.view_sizes()),
    {
        let s = sizes_slice(&self.dims);
        let mut p: usize = 1;
        let mut k: usize = 0;
        assert(s@.subrange(0, 0) =~= Seq::<usize>::empty());
        while k < s.len()
            invariant
                k <= s@.len(),
                s@ == self.view_sizes(),
                products_fit(s@),
                p == sizes_product(s@.subrange(0, k as int)),
            decreases s@.len() - k,
        {
            assert(s@.subrange(0, k + 1).drop_last() =~= s@.subrange(0, k as int));
            assert(sizes_product(s@.subrange(0, k + 1)) <= usize::MAX);
            p = p * s[k];
            k = k + 1;
        }
        assert(s@.subrange(0, s@.len() as int) =~= s@);
        p
    }

    /// Whether this is a scalar (rank 0).
    pub fn is_scalar(&self) -> (r: bool)
        ensures
            r == (self.view_sizes().len() == 0),
    {
        sizes_slice(&self.dims).len() == 0
    }

    /// Set the size of dimension `dim`, first extending with dimensions of
    /// size 1 as needed.
    pub fn set_size(&mut self, dim: usize, size: usize)
        requires
            dim < usize::MAX - 1,
        ensures
            final(self).view_sizes() == (if dim < old(self).view_sizes().len() {
                old(self).view_sizes()
            } else {
                old(self).view_sizes() + Seq::new((dim + 1 - old(self).view_sizes().len()) as nat, |k: int| 1usize)
            }).update(dim as int, size),
    {
        let ghost start = self.view_sizes();
        while sizes_slice(&self.dims).len() <= dim
            invariant
                start.len() <= small_sizes(self.dims).len(),
                small_sizes(self.dims).len() <= (if dim < start.len() { start.len() } else { (dim + 1) as nat }),
                small_sizes(self.dims) == start + Seq::new((small_sizes(self.dims).len() - start.len()) as nat, |k: int| 1usize),
                dim < usize::MAX - 1,
            decreases dim + 1 - small_sizes(self.dims).len(),
        {
            let ghost before = small_sizes(self.dims);
            sizes_push(&mut self.dims, 1);
            assert(small_sizes(self.dims) =~= start + Seq::new((small_sizes(self.dims).len() - start.len()) as nat, |k: int| 1usize));
        }
        sizes_set(&mut self.dims, dim, size);
        proof {
            if dim < start.len() {
                assert(small_sizes(self.dims) =~= start.update(dim as int, size));
            } else {
                assert(small_sizes(self.dims) =~= (start + Seq::new((dim + 1 - start.len()) as nat, |k: int| 1usize)).update(dim as int, size));
            }
        }
    }

    /// Add a dimension at the end.
    pub fn push(&mut self, size: usize)
        requires
            old(self).view_sizes().len() < usize::MAX,
        ensures
            final(self).view_sizes() == old(self).view_sizes().push(size),
    {
        sizes_push(&mut self.dims, size);
    }

    /// Set the rank: drop the last dimensions, or add dimensions of size 1.
    pub fn set_rank(&mut self, rank: usize)
        ensures
            final(self).view_sizes() == if rank <= old(self).view_sizes().len() {
                old(self).view_sizes().subrange(0, rank as int)
            } else {
                old(self).view_sizes() + Seq::new((rank - old(self).view_sizes().len()) as nat, |k: int| 1usize)
            },
    {
        sizes_resize(&mut self.dims, rank, 1);
    }

    /// The text form: `[]` for a scalar, else the sizes between brackets
    /// separated by ` x ` (e.g. `[640 x 480]`).
    pub fn to_string(&self) -> (r: String)
        ensures
            r@ == sizes_text(self.view_sizes()),
    {
        let s = sizes_slice(&self.dims);
        let mut out = "[".to_owned();
        let mut k: usize = 0;
        proof {
            reveal_strlit("[");
            reveal_strlit("]");
            reveal_strlit(" x ");
        }
        while k < s.len()
            invariant
                k <= s@.len(),
                out@ == seq!['['] + sizes_inner(s@.subrange(0, k as int)),
            decreases s@.len() - k,
        {
            let ghost before = out@;
            if k > 0 {
                out.append(" x ");
            }
            push_decimal(&mut out, s[k] as u64);
            proof {
                reveal_strlit(" x ");
                let sub = s@.subrange(0, k + 1);
                assert(sub.drop_last() =~= s@.subrange(0, k as int));
                if k == 0 {
                    assert(sub[0] == s@[0]);
                    assert(sizes_inner(s@.subrange(0, 0)) =~= Seq::<char>::empty());
                    assert(out@ =~= seq!['['] + sizes_inner(sub));
                } else {
                    assert(out@ =~= seq!['['] + sizes_inner(sub));
                }
            }
            k = k + 1;
        }
        out.append("]");
        proof {
            reveal_strlit("]");
            assert(s@.subrange(0, s@.len() as int) =~= s@);
        }
        out
    }
}

impl From<usize> for Dimensions {
    fn from(size: usize) -> (r: Self)
        ensures
            r.view_sizes() == seq![size],
    {
        Self::d1(size)
    }
}

impl vstd::std_specs::convert::FromSpecImpl<usize> for Dimensions {
    open spec fn obeys_from_spec() -> bool {
        false
    }

    open spec fn from_spec(v: usize) -> Self {
        arbitrary()
    }
}

impl From<(usize, usize)> for Dimensions {
    fn from(wh: (usize, usize)) -> (r: Self)
        ensures
            r.view_sizes() == seq![wh.0, wh.1],
    {
        Self::d2(wh.0, wh.1)
    }
}

impl vstd::std_specs::convert::FromSpecImpl<(usize, usize)> for Dimensions {
    open spec fn obeys_from_spec() -> bool {
        false
    }

    open spec fn from_spec(v: (usize, usize)) -> Self {
        arbitrary()
    }
}

impl From<(usize, usize, usize)> for Dimensions {
    fn from(whd: (usize, usize, usize)) -> (r: Self)
        ensures
            r.view_sizes() == seq![whd.0, whd.1, whd.2],
    {
        Self::d3(whd.0, whd.1, whd.2)
    }
}

impl vstd::std_specs::convert::FromSpecImpl<(usize, usize, usize)> for Dimensions {
    open spec fn obeys_from_spec() -> bool {
        false
    }

    open spec fn from_spec(v: (usize, usize, usize)) -> Self {
        arbitrary()
    }
}

impl From<Vec<usize>> for Dimensions {
    fn from(v: Vec<usize>) -> (r: Self)
        ensures
            r.view_sizes() == v@,
    {
        Self::from_vec(v)
    }
}

impl vstd::std_specs::convert::FromSpecImpl<Vec<usize>> for Dimensions {
    open spec fn obeys_from_spec() -> bool {
        false
    }

    open spec fn from_spec(v: Vec<usize>) -> Self {
        arbitrary()
    }
}

} // verus!
