use vstd::prelude::*;
use vstd::slice::slice_subrange;

use crate::config::{at_least_one, raise_to_one, WindowConfig};
use crate::padding::{
    copy_into, default_is_unique, is_default_value, is_padding_of, lemma_padding_is_unique, padded,
};

verus! {

/// The number of windows of `size` elements, `stride` elements apart, that fit
/// in `len` elements, the first one starting at 0.
pub open spec fn window_total(len: nat, size: nat, stride: nat) -> nat {
    if size <= len {
        ((len - size) as nat) / stride + 1
    } else {
        0
    }
}

/// All windows of `size` elements of `data`, `stride` elements apart,
/// starting at the first element.
pub open spec fn windows_of<T>(data: Seq<T>, size: nat, stride: nat) -> Seq<Seq<T>> {
    Seq::new(
        window_total(data.len(), size, stride),
        |j: int| data.subrange(j * stride, j * stride + size),
    )
}

/// The contents of each vector of `ws`.
pub open spec fn contents_of<T>(ws: Seq<Vec<T>>) -> Seq<Seq<T>> {
    ws.map_values(|w: Vec<T>| w@)
}

/// The number of positions at which a full window of `size` elements fits in
/// `len` elements.
pub open spec fn position_count(len: nat, size: nat) -> nat {
    if len >= size {
        (len - size + 1) as nat
    } else {
        0
    }
}

/// Sliding window over a 1D data stream.
#[derive(Debug)]
pub struct Window<T> {
    data: Vec<T>,
    size: usize,
    position: usize,
}

/// What a window holds: its data, its size and where it currently starts.
pub struct WindowView<T> {
    pub data: Seq<T>,
    pub size: nat,
    pub position: nat,
}

impl<T> WindowView<T> {
    /// The window starting at the current position, cut short at the end of
    /// the data.
    pub open spec fn current_window(self) -> Seq<T> {
        let end = if self.position + self.size <= self.data.len() {
            (self.position + self.size) as int
        } else {
            self.data.len() as int
        };
        self.data.subrange(self.position as int, end)
    }

    /// A full window fits at the current position.
    pub open spec fn fits(self) -> bool {
        self.position + self.size <= self.data.len()
    }
}

impl<T> View for Window<T> {
    type V = WindowView<T>;

    closed spec fn view(&self) -> WindowView<T> {
        WindowView { data: self.data@, size: self.size as nat, position: self.position as nat }
    }
}

impl<T> Window<T> {
    #[verifier::type_invariant]
    spec fn well_formed(self) -> bool {
        &&& self.size >= 1
        &&& self.position + self.size <= usize::MAX
    }

    /// Create a new sliding window with the given data and window size; a
    /// size of 0 is taken as 1.
    pub fn new(data: Vec<T>, size: usize) -> (w: Self)
        ensures
            w@.data == data@,
            w@.size == at_least_one(size as nat),
            size >= 1 ==> w@.size == size,
            size == 0 ==> w@.size == 1,
            w@.position == 0,
    {
        Window { data, size: raise_to_one(size), position: 0 }
    }

    /// Advance the window position by `stride` (0 is taken as 1). Returns
    /// `false` if no full window fits at the new position.
    pub fn slide(&mut self, stride: usize) -> (more: bool)
        requires
            old(self)@.position + at_least_one(stride as nat) + old(self)@.size <= usize::MAX,
        ensures
            final(self)@.data == old(self)@.data,
            final(self)@.size == old(self)@.size,
            final(self)@.position == old(self)@.position + at_least_one(stride as nat),
            more == final(self)@.fits(),
            more == (final(self)@.position + final(self)@.size <= final(self)@.data.len()),
    {
        proof {
            use_type_invariant(&*self);
        }
        let stride = raise_to_one(stride);
        self.position = self.position + stride;
        self.position + self.size <= self.data.len()
    }

    /// Get the current window contents.
    pub fn current(&self) -> (out: &[T])
        requires
            self@.position <= self@.data.len(),
        ensures
            out@ == self@.current_window(),
            self@.position + self@.size <= self@.data.len() ==> out@ == self@.data.subrange(
                self@.position as int,
                (self@.position + self@.size) as int,
            ),
            self@.position + self@.size > self@.data.len() ==> out@ == self@.data.subrange(
                self@.position as int,
                self@.data.len() as int,
            ),
    {
        proof {
            use_type_invariant(self);
        }
        let len = self.data.len();
        let end = if self.position + self.size <= len {
            self.position + self.size
        } else {
            len
        };
        slice_subrange(self.data.as_slice(), self.position, end)
    }

    /// Get the window at a specific position.
    pub fn at(&self, i: usize) -> (out: Option<&[T]>)
        ensures
            out is Some <==> i + self@.size <= self@.data.len(),
            out matches Some(w) ==> w@ == self@.data.subrange(i as int, i + self@.size),
    {
        let len = self.data.len();
        if self.size <= len && i <= len - self.size {
            Some(slice_subrange(self.data.as_slice(), i, i + self.size))
        } else {
            None
        }
    }

    /// The data the window slides over.
    pub fn data(&self) -> (out: &[T])
        ensures
            out@ == self@.data,
    {
        self.data.as_slice()
    }

    /// The number of elements in a full window.
    pub fn size(&self) -> (n: usize)
        ensures
            n == self@.size,
            n >= 1,
    {
        proof {
            use_type_invariant(self);
        }
        self.size
    }

    /// Where the current window starts.
    pub fn position(&self) -> (p: usize)
        ensures
            p == self@.position,
    {
        self.position
    }

    /// Total number of positions at which a full window fits (stride 1).
    pub fn count(&self) -> (n: usize)
        ensures
            n == position_count(self@.data.len(), self@.size),
    {
        proof {
            use_type_invariant(self);
        }
        if self.data.len() >= self.size {
            self.data.len() - self.size + 1
        } else {
            0
        }
    }
}

impl<T: Copy> Clone for Window<T> {
    fn clone(&self) -> (w: Self)
        ensures
            w@ == self@,
    {
        proof {
            use_type_invariant(self);
        }
        Window {
            data: copy_into(Vec::new(), self.data.as_slice()),
            size: self.size,
            position: self.position,
        }
    }
}

impl<T: Copy + Default> Window<T> {
    /// Create a window with full configuration: the data is padded as the
    /// configuration says.
    pub fn with_config(data: Vec<T>, config: WindowConfig) -> (w: Self)
        ensures
            is_padding_of(w@.data, config.padding, data@, config.size as nat),
            w@.size == at_least_one(config.size as nat),
            config.size >= 1 ==> w@.size == config.size,
            w@.position == 0,
    {
        let padded_data = config.padding.apply(data.as_slice(), config.size);
        Window { data: padded_data, size: raise_to_one(config.size), position: 0 }
    }

    /// Collect all windows according to config.
    pub fn collect_all(data: Vec<T>, config: WindowConfig) -> (out: Vec<Vec<T>>)
        ensures
            exists|fill: T|
                #[trigger] is_default_value(fill) && contents_of(out@) == windows_of(
                    padded(config.padding, data@, config.size as nat, fill),
                    at_least_one(config.size as nat),
                    at_least_one(config.stride as nat),
                ),
    {
        let padded_data = config.padding.apply(data.as_slice(), config.size);
        let size = raise_to_one(config.size);
        let stride = raise_to_one(config.stride);
        let ghost p = padded_data@;
        let ghost expected = windows_of(p, size as nat, stride as nat);
        let mut windows: Vec<Vec<T>> = Vec::new();
        let len = padded_data.len();
        if len < size {
            assert(contents_of(windows@) =~= expected);
            return windows;
        }
        let mut pos: usize = 0;
        let ghost mut j: int = 0;
        loop
            invariant_except_break
                windows@.len() == j,
                forall|i: int|
                    0 <= i < j ==> #[trigger] windows@[i]@ == p.subrange(i * stride, i * stride + size),
            invariant
                len == p.len(),
                p == padded_data@,
                size >= 1,
                stride >= 1,
                j >= 0,
                pos == j * stride,
                pos + size <= len,
            ensures
                windows@.len() == j + 1,
                len - size - pos < stride,
                forall|i: int|
                    0 <= i <= j ==> #[trigger] windows@[i]@ == p.subrange(i * stride, i * stride + size),
            decreases len - pos,
        {
            let w = copy_into(Vec::new(), slice_subrange(padded_data.as_slice(), pos, pos + size));
            windows.push(w);
            if stride > len - size - pos {
                break;
            }
            assert(pos + stride == (j + 1) * stride) by (nonlinear_arith)
                requires
                    pos == j * stride,
            ;
            pos = pos + stride;
            proof {
                j = j + 1;
            }
        }
        proof {
            let r = (len - size) as int;
            vstd::arithmetic::div_mod::lemma_fundamental_div_mod_converse(
                r,
                stride as int,
                j,
                r - pos,
            );
            assert(window_total(len as nat, size as nat, stride as nat) == j + 1);
            assert(contents_of(windows@) =~= expected);
        }
        windows
    }
}

/// Window `k` is among those that fit exactly when `k * stride + size` stays
/// within the data.
proof fn lemma_window_index_fits(len: nat, size: nat, stride: nat, k: nat)
    requires
        size >= 1,
        stride >= 1,
    ensures
        k < window_total(len, size, stride) <==> k * stride + size <= len,
{
    if size <= len {
        let r = (len - size) as int;
        let q = r / (stride as int);
        vstd::arithmetic::div_mod::lemma_fundamental_div_mod(r, stride as int);
        let m = r % (stride as int);
        assert(0 <= m < stride);
        assert(r == stride * q + m);
        if k <= q {
            assert(k * stride <= q * stride) by (nonlinear_arith)
                requires
                    k <= q,
                    stride >= 1,
            ;
        } else {
            assert(k * stride >= (q + 1) * stride) by (nonlinear_arith)
                requires
                    k >= q + 1,
                    stride >= 1,
            ;
            assert((q + 1) * stride == stride * q + stride) by (nonlinear_arith);
        }
    }
}

/// Every window has `size` elements, the windows start `stride` elements
/// apart from the first element, and they run to the end: one more window
/// would not fit.
pub proof fn lemma_windows_shape<T>(data: Seq<T>, size: nat, stride: nat)
    requires
        size >= 1,
        stride >= 1,
    ensures
        ({
            let ws = windows_of(data, size, stride);
            let n = window_total(data.len(), size, stride);
            &&& ws.len() == n
            &&& forall|j: int| 0 <= j < n ==> (#[trigger] ws[j]).len() == size
            &&& forall|j: int|
                0 <= j < n ==> ws[j] == data.subrange(j * stride, j * stride + size)
            &&& n * stride + size > data.len()
            &&& (n == 0 <==> data.len() < size)
        }),
{
    let n = window_total(data.len(), size, stride);
    let ws = windows_of(data, size, stride);
    lemma_window_index_fits(data.len(), size, stride, n);
    assert forall|j: int| 0 <= j < n implies (#[trigger] ws[j]).len() == size by {
        lemma_window_index_fits(data.len(), size, stride, j as nat);
    }
}

/// Sliding a window by `stride` visits, in order, the windows that
/// `collect_all` gathers with the same size and stride: after `k` slides the
/// current window is window `k`, and a full window fits exactly when window
/// `k` exists.
pub proof fn lemma_slide_matches_collect<T>(data: Seq<T>, size: nat, stride: nat, k: nat)
    requires
        size >= 1,
        stride >= 1,
    ensures
        ({
            let view = WindowView { data, size, position: k * stride };
            &&& view.fits() <==> k < window_total(data.len(), size, stride)
            &&& view.fits() ==> windows_of(data, size, stride)[k as int] == view.current_window()
        }),
{
    lemma_window_index_fits(data.len(), size, stride, k);
}

/// `slide` answers `true` exactly when the window it moved to is full: at a
/// position within the data, a full window fits exactly when the current
/// window has `size` elements.
pub proof fn lemma_fits_means_full_window<T>(view: WindowView<T>)
    requires
        view.position <= view.data.len(),
    ensures
        view.fits() <==> view.current_window().len() == view.size,
{
}

/// `at(i)` finds a window exactly at the positions below `count()`.
pub proof fn lemma_at_below_count(len: nat, size: nat, i: nat)
    requires
        size >= 1,
    ensures
        i + size <= len <==> i < position_count(len, size),
{
}

/// `count()` is the number of windows `collect_all` gathers with stride 1.
pub proof fn lemma_count_is_stride_one_total(len: nat, size: nat)
    requires
        size >= 1,
    ensures
        position_count(len, size) == window_total(len, size, 1),
{
}

/// `Window::with_config(data, config)` is `Window::new` over
/// `config.padding.apply(&data, config.size)`: the two windows have the same
/// view (`configured` is the data `with_config` holds, `applied` what `apply`
/// returns), so every method answers alike; the stride is not used. Zero
/// padding needs a type whose default value is unique.
pub proof fn lemma_with_config_is_new_over_apply<T: Default>(
    configured: Seq<T>,
    applied: Seq<T>,
    data: Seq<T>,
    config: WindowConfig,
)
    requires
        is_padding_of(configured, config.padding, data, config.size as nat),
        is_padding_of(applied, config.padding, data, config.size as nat),
        config.padding is Zero ==> default_is_unique::<T>(),
    ensures
        (WindowView { data: configured, size: at_least_one(config.size as nat), position: 0 })
            == (WindowView { data: applied, size: at_least_one(config.size as nat), position: 0 }),
{
    lemma_padding_is_unique(configured, applied, config.padding, data, config.size as nat);
}

/// With stride 1, `collect_all(data, config)` lists exactly the windows that
/// `at` finds on `Window::with_config(data, config)`: one per position below
/// `count()`, and none at `count()`. `collected` is the contents of what
/// `collect_all` returns, `configured` the data `with_config` holds. Zero
/// padding needs a type whose default value is unique.
pub proof fn lemma_collect_all_matches_at<T: Default>(
    collected: Seq<Seq<T>>,
    configured: Seq<T>,
    data: Seq<T>,
    config: WindowConfig,
)
    requires
        config.stride <= 1,
        exists|fill: T|
            #[trigger] is_default_value(fill) && collected == windows_of(
                padded(config.padding, data, config.size as nat, fill),
                at_least_one(config.size as nat),
                at_least_one(config.stride as nat),
            ),
        is_padding_of(configured, config.padding, data, config.size as nat),
        config.padding is Zero ==> default_is_unique::<T>(),
    ensures
        ({
            let size = at_least_one(config.size as nat);
            &&& collected.len() == position_count(configured.len(), size)
            &&& forall|i: int|
                0 <= i < collected.len() ==> #[trigger] collected[i] == configured.subrange(
                    i,
                    i + size,
                )
            &&& collected.len() + size > configured.len()
        }),
{
    let size = at_least_one(config.size as nat);
    let fill = choose|fill: T|
        #[trigger] is_default_value(fill) && collected == windows_of(
            padded(config.padding, data, config.size as nat, fill),
            size,
            at_least_one(config.stride as nat),
        );
    let p = padded(config.padding, data, config.size as nat, fill);
    assert(is_padding_of(p, config.padding, data, config.size as nat));
    lemma_padding_is_unique(p, configured, config.padding, data, config.size as nat);
    assert(at_least_one(config.stride as nat) == 1);
    lemma_count_is_stride_one_total(configured.len(), size);
    assert forall|i: int| 0 <= i < collected.len() implies #[trigger] collected[i]
        == configured.subrange(i, i + size) by {
        assert(i * 1 == i);
    }
}

/// The current window starts at the position and holds the next `size`
/// elements of the data, or, when fewer remain, every element up to the end
/// of the data: it is `data[position..min(position + size, len)]`.
pub proof fn lemma_current_window_bounds<T>(view: WindowView<T>)
    requires
        view.position <= view.data.len(),
    ensures
        view.current_window().len() == if view.position + view.size <= view.data.len() {
            view.size
        } else {
            (view.data.len() - view.position) as nat
        },
        forall|k: int|
            0 <= k < view.current_window().len() ==> #[trigger] view.current_window()[k]
                == view.data[view.position + k],
        view.position + view.size > view.data.len() ==> view.current_window() == view.data.subrange(
            view.position as int,
            view.data.len() as int,
        ),
        view.position + view.size <= view.data.len() ==> view.current_window()
            == view.data.subrange(view.position as int, (view.position + view.size) as int),
{
}

/// With a configured size and stride of at least 1, every window that
/// `collect_all` gathers has exactly `size` elements, and window `j` starts
/// `j * stride` elements into the data: consecutive windows start exactly
/// `stride` apart.
pub proof fn lemma_collected_windows_use_config<T>(data: Seq<T>, config: WindowConfig, j: int)
    requires
        config.size >= 1,
        config.stride >= 1,
        0 <= j < window_total(data.len(), config.size as nat, config.stride as nat),
    ensures
        ({
            let ws = windows_of(
                data,
                at_least_one(config.size as nat),
                at_least_one(config.stride as nat),
            );
            &&& ws.len() == window_total(data.len(), config.size as nat, config.stride as nat)
            &&& ws[j].len() == config.size
            &&& ws[j] == data.subrange(j * config.stride, j * config.stride + config.size)
            &&& j + 1 < ws.len() ==> ws[j + 1] == data.subrange(
                j * config.stride + config.stride,
                j * config.stride + config.stride + config.size,
            )
        }),
{
    let size = config.size as nat;
    let stride = config.stride as nat;
    crate::config::lemma_at_least_one_keeps_positive(size);
    crate::config::lemma_at_least_one_keeps_positive(stride);
    lemma_windows_shape(data, size, stride);
    assert((j + 1) * stride == j * stride + stride) by (nonlinear_arith);
}

} // verus!
