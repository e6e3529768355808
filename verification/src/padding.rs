use vstd::prelude::*;

verus! {

/// Strategy for padding data when the window extends beyond boundaries.
#[derive(Debug, Clone, Copy, PartialEq, Eq, Structural)]
pub enum PaddingStrategy {
    /// No padding; windows must fit within data bounds.
    NoPadding,
    /// Pad with zeros (the element type's default value).
    Zero,
    /// Mirror the data at boundaries (reflecting again at the far end when
    /// more elements are needed than the data holds).
    Mirror,
    /// Wrap around (circular).
    Wrap,
}

/// `v` is a value that `T::default()` may return.
pub open spec fn is_default_value<T: Default>(v: T) -> bool {
    call_ensures(T::default, (), v)
}

/// How many elements are prepended to `len` elements so that a window of
/// `window_size` fits from the first element. Empty data is never padded.
pub open spec fn pad_count(len: nat, window_size: nat) -> nat {
    if len == 0 || window_size <= len {
        0
    } else {
        (window_size - len) as nat
    }
}

/// The elements that `strategy` puts in front of `data`; `fill` is the value
/// used by zero padding.
pub open spec fn padding_prefix<T>(
    strategy: PaddingStrategy,
    data: Seq<T>,
    window_size: nat,
    fill: T,
) -> Seq<T> {
    let pad = pad_count(data.len(), window_size);
    match strategy {
        PaddingStrategy::NoPadding => Seq::empty(),
        PaddingStrategy::Zero => Seq::new(pad, |k: int| fill),
        PaddingStrategy::Mirror => Seq::new(
            pad,
            |k: int| data[mirror_index((pad - 1 - k) as nat, data.len()) as int],
        ),
        PaddingStrategy::Wrap => Seq::new(pad, |k: int| data[k % (data.len() as int)]),
    }
}

/// The padded copy of `data`.
pub open spec fn padded<T>(strategy: PaddingStrategy, data: Seq<T>, window_size: nat, fill: T) -> Seq<T> {
    padding_prefix(strategy, data, window_size, fill) + data
}

/// `out` is the padded copy of `data`, zero padding using a default value.
pub open spec fn is_padding_of<T: Default>(
    out: Seq<T>,
    strategy: PaddingStrategy,
    data: Seq<T>,
    window_size: nat,
) -> bool {
    exists|fill: T| #[trigger] is_default_value(fill) && out == padded(strategy, data, window_size, fill)
}

/// The data element that mirror padding puts `m` places before the first
/// element: the data reflected at its first element, and reflected again at
/// its last element whenever the padding runs past it.
pub open spec fn mirror_index(m: nat, len: nat) -> nat {
    let r = m % (2 * len);
    if r < len {
        r
    } else {
        (2 * len - 1 - r) as nat
    }
}

/// `mirror_index(m, len)`, for data of `len > 0` elements.
fn mirror_position(m: usize, len: usize) -> (r: usize)
    requires
        len > 0,
    ensures
        r == mirror_index(m as nat, len as nat),
        r < len,
{
    let r = if len <= usize::MAX / 2 {
        m % (2 * len)
    } else {
        assert((m as int) % (2 * (len as int)) == m) by (nonlinear_arith)
            requires
                m < 2 * len,
        ;
        m
    };
    assert(r < 2 * len) by (nonlinear_arith)
        requires
            len > 0,
            r == (m as int) % (2 * (len as int)),
    ;
    if r < len {
        r
    } else {
        len - 1 - (r - len)
    }
}

impl PaddingStrategy {
    /// Apply padding to `data` so that a window of `window_size` can slide
    /// from the first element. Returns a padded copy of `data`.
    pub fn apply<T: Copy + Default>(&self, data: &[T], window_size: usize) -> (out: Vec<T>)
        ensures
            is_padding_of(out@, *self, data@, window_size as nat),
            out@.len() == if *self is NoPadding || data@.len() == 0 || window_size <= data@.len() {
                data@.len()
            } else {
                window_size as nat
            },
            out@.subrange(out@.len() - data@.len(), out@.len() as int) == data@,
    {
        let len = data.len();
        let fill = T::default();
        assert(is_default_value(fill));
        if len == 0 || window_size <= len {
            let out = copy_into(Vec::new(), data);
            assert(out@ == padded(*self, data@, window_size as nat, fill));
            assert(out@.subrange(0, out@.len() as int) == data@);
            return out;
        }
        let pad = window_size - len;
        let ghost prefix = padding_prefix(*self, data@, window_size as nat, fill);
        let mut out: Vec<T> = Vec::new();
        match self {
            PaddingStrategy::NoPadding => {},
            PaddingStrategy::Zero => {
                let mut k: usize = 0;
                while k < pad
                    invariant
                        k <= pad,
                        pad == pad_count(len as nat, window_size as nat),
                        prefix == Seq::new(pad as nat, |i: int| fill),
                        out@ == prefix.take(k as int),
                    decreases pad - k,
                {
                    out.push(fill);
                    k = k + 1;
                }
            },
            PaddingStrategy::Mirror => {
                let mut k: usize = 0;
                while k < pad
                    invariant
                        k <= pad,
                        len > 0,
                        len == data@.len(),
                        pad == pad_count(len as nat, window_size as nat),
                        prefix == Seq::new(
                            pad as nat,
                            |i: int| data@[mirror_index((pad - 1 - i) as nat, len as nat) as int],
                        ),
                        out@ == prefix.take(k as int),
                    decreases pad - k,
                {
                    let idx = mirror_position(pad - 1 - k, len);
                    out.push(data[idx]);
                    k = k + 1;
                }
            },
            PaddingStrategy::Wrap => {
                let mut k: usize = 0;
                while k < pad
                    invariant
                        k <= pad,
                        len > 0,
                        len == data@.len(),
                        pad == pad_count(len as nat, window_size as nat),
                        prefix == Seq::new(pad as nat, |i: int| data@[i % (len as int)]),
                        out@ == prefix.take(k as int),
                    decreases pad - k,
                {
                    out.push(data[k % len]);
                    k = k + 1;
                }
            },
        }
        assert(out@ == prefix);
        let out = copy_into(out, data);
        assert(out@ == padded(*self, data@, window_size as nat, fill));
        assert(out@.subrange(prefix.len() as int, out@.len() as int) == data@);
        out
    }
}

/// The padded data always ends with the original data: padding only ever
/// prepends elements.
pub proof fn lemma_padding_keeps_data<T>(
    strategy: PaddingStrategy,
    data: Seq<T>,
    window_size: nat,
    fill: T,
)
    ensures
        ({
            let out = padded(strategy, data, window_size, fill);
            &&& out.len() >= data.len()
            &&& out.subrange(out.len() - data.len(), out.len() as int) == data
        }),
{
    let out = padded(strategy, data, window_size, fill);
    let pre = padding_prefix(strategy, data, window_size, fill);
    assert(out.subrange(pre.len() as int, out.len() as int) =~= data);
}

/// Every strategy but `NoPadding` makes a window of `window_size` fit from the
/// first element of non-empty data: the padded data has exactly
/// `max(len, window_size)` elements.
pub proof fn lemma_padding_fits_window<T>(
    strategy: PaddingStrategy,
    data: Seq<T>,
    window_size: nat,
    fill: T,
)
    requires
        !(strategy is NoPadding),
        data.len() > 0,
    ensures
        padded(strategy, data, window_size, fill).len() == if window_size <= data.len() {
            data.len()
        } else {
            window_size
        },
{
}

/// Data that is empty, or already holds a full window, comes back unchanged;
/// so does any data under `NoPadding`.
pub proof fn lemma_padding_unneeded<T>(
    strategy: PaddingStrategy,
    data: Seq<T>,
    window_size: nat,
    fill: T,
)
    requires
        strategy is NoPadding || data.len() == 0 || window_size <= data.len(),
    ensures
        padded(strategy, data, window_size, fill) == data,
{
    assert(padded(strategy, data, window_size, fill) =~= data);
}

/// The fill value matters to zero padding alone: under every other strategy
/// the padded data is the same whatever the fill.
pub proof fn lemma_padding_ignores_fill<T>(
    strategy: PaddingStrategy,
    data: Seq<T>,
    window_size: nat,
    fill1: T,
    fill2: T,
)
    requires
        !(strategy is Zero),
    ensures
        padded(strategy, data, window_size, fill1) == padded(strategy, data, window_size, fill2),
{
    assert(padded(strategy, data, window_size, fill1) =~= padded(strategy, data, window_size, fill2));
}

/// `T::default()` has a single possible result, as vstd states for the
/// integer, float, `bool` and `char` types.
pub open spec fn default_is_unique<T: Default>() -> bool {
    forall|a: T, b: T|
        #![trigger is_default_value(a), is_default_value(b)]
        is_default_value(a) && is_default_value(b) ==> a == b
}

/// Padding the same data twice gives the same result, unless zero padding
/// meets a type whose default value is not unique.
pub proof fn lemma_padding_is_unique<T: Default>(
    out1: Seq<T>,
    out2: Seq<T>,
    strategy: PaddingStrategy,
    data: Seq<T>,
    window_size: nat,
)
    requires
        is_padding_of(out1, strategy, data, window_size),
        is_padding_of(out2, strategy, data, window_size),
        strategy is Zero ==> default_is_unique::<T>(),
    ensures
        out1 == out2,
{
    let fill1 = choose|fill: T| #[trigger] is_default_value(fill) && out1 == padded(strategy, data, window_size, fill);
    let fill2 = choose|fill: T| #[trigger] is_default_value(fill) && out2 == padded(strategy, data, window_size, fill);
    if !(strategy is Zero) {
        lemma_padding_ignores_fill(strategy, data, window_size, fill1, fill2);
    }
}

/// When mirror padding adds no more elements than the data holds, the
/// padding is the head of the data reversed.
pub proof fn lemma_mirror_short_is_reversed_head<T>(data: Seq<T>, window_size: nat, fill: T)
    requires
        pad_count(data.len(), window_size) <= data.len(),
    ensures
        ({
            let pad = pad_count(data.len(), window_size) as int;
            padded(PaddingStrategy::Mirror, data, window_size, fill).subrange(0, pad)
                == data.subrange(0, pad).reverse()
        }),
{
    let pad = pad_count(data.len(), window_size) as int;
    let out = padded(PaddingStrategy::Mirror, data, window_size, fill);
    assert forall|k: int| 0 <= k < pad implies out[k] == data[pad - 1 - k] by {
        vstd::arithmetic::div_mod::lemma_small_mod((pad - 1 - k) as nat, 2 * data.len());
    }
    assert(out.subrange(0, pad) =~= data.subrange(0, pad).reverse());
}

/// Mirror padding reflects the data at its first element: the k-th element
/// before the boundary equals the k-th element after it.
pub proof fn lemma_mirror_reflects<T>(data: Seq<T>, window_size: nat, fill: T, k: int)
    requires
        0 <= k < pad_count(data.len(), window_size),
        k < data.len(),
    ensures
        ({
            let out = padded(PaddingStrategy::Mirror, data, window_size, fill);
            let pad = pad_count(data.len(), window_size) as int;
            out[pad - 1 - k] == out[pad + k]
        }),
{
    vstd::arithmetic::div_mod::lemma_small_mod(k as nat, 2 * data.len());
}

/// Read outward from the first data element, mirror padding runs through
/// the data forwards, then backwards from its last element, and repeats with
/// period twice the data length.
pub proof fn lemma_mirror_pattern<T>(data: Seq<T>, window_size: nat, fill: T, m: int)
    requires
        0 <= m < pad_count(data.len(), window_size),
    ensures
        ({
            let out = padded(PaddingStrategy::Mirror, data, window_size, fill);
            let pad = pad_count(data.len(), window_size) as int;
            let len = data.len() as int;
            &&& m < len ==> out[pad - 1 - m] == data[m]
            &&& len <= m < 2 * len ==> out[pad - 1 - m] == data[2 * len - 1 - m]
            &&& m >= 2 * len ==> out[pad - 1 - m] == out[pad - 1 - (m - 2 * len)]
        }),
{
    let len = data.len() as int;
    assert(len > 0);
    if m < 2 * len {
        vstd::arithmetic::div_mod::lemma_small_mod(m as nat, (2 * len) as nat);
    } else {
        vstd::arithmetic::div_mod::lemma_mod_sub_multiples_vanish(m, 2 * len);
        assert((m - 2 * len) % (2 * len) == m % (2 * len));
    }
}

/// Wrap padding cycles through the data from its first element: padding
/// element k is data element k modulo the data length.
pub proof fn lemma_wrap_cycles<T>(data: Seq<T>, window_size: nat, fill: T, k: int)
    requires
        0 <= k < pad_count(data.len(), window_size),
    ensures
        padded(PaddingStrategy::Wrap, data, window_size, fill)[k] == data[k % (data.len() as int)],
{
}

/// Zero padding puts the fill value, and nothing else, in front of the data.
pub proof fn lemma_zero_fills<T>(data: Seq<T>, window_size: nat, fill: T, k: int)
    requires
        0 <= k < pad_count(data.len(), window_size),
    ensures
        padded(PaddingStrategy::Zero, data, window_size, fill)[k] == fill,
{
}

/// Appends a copy of every element of `data` to `out`.
pub(crate) fn copy_into<T: Copy>(out: Vec<T>, data: &[T]) -> (res: Vec<T>)
    ensures
        res@ == out@ + data@,
{
    let mut res = out;
    let ghost start = res@;
    let mut i: usize = 0;
    while i < data.len()
        invariant
            i <= data@.len(),
            res@ == start + data@.take(i as int),
        decreases data@.len() - i,
    {
        res.push(data[i]);
        i = i + 1;
        assert(data@.take(i as int) == data@.take(i - 1) + seq![data@[i - 1]]);
    }
    assert(data@.take(i as int) == data@);
    res
}

} // verus!
