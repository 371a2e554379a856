//! A generic row-major pixel buffer.
use vstd::prelude::*;

use crate::pixel::PlainPixel;

verus! {

/// What a pixel buffer holds: its dimensions and its elements in row-major order.
pub struct ImageView<T> {
    pub width: nat,
    pub height: nat,
    pub pixels: Seq<T>,
}

impl<T> ImageView<T> {
    /// The buffer holds exactly `width * height` elements.
    pub open spec fn allocated(self) -> bool {
        self.pixels.len() == self.width * self.height
    }

    /// Whether `(x, y)` lies inside the image.
    pub open spec fn in_bounds(self, x: int, y: int) -> bool {
        0 <= x < self.width && 0 <= y < self.height
    }

    /// Storage index of `(x, y)`: row `y` starts at `y * width`.
    pub open spec fn index_of(self, x: int, y: int) -> int {
        y * self.width + x
    }

    /// The element at `(x, y)`.
    pub open spec fn pixel(self, x: int, y: int) -> T {
        self.pixels[self.index_of(x, y)]
    }

    /// Every element is an outcome of `f` at its own coordinates.
    pub open spec fn filled_by<F: Fn(u16, u16) -> T>(self, f: F) -> bool {
        forall|x: u16, y: u16|
            #![trigger self.pixel(x as int, y as int)]
            self.in_bounds(x as int, y as int) ==> f.ensures((x, y), self.pixel(x as int, y as int))
    }
}

/// Every position inside a `w`×`h` image has a storage index below `w * h`.
pub proof fn lemma_index_in_range(w: nat, h: nat, x: int, y: int)
    requires
        0 <= x < w,
        0 <= y < h,
    ensures
        0 <= y * w + x < w * h,
{
    assert(0 <= y * w + x < w * h) by (nonlinear_arith)
        requires
            0 <= x < w,
            0 <= y < h,
    ;
}

/// A position outside the image.
#[derive(Debug, Clone, Copy, PartialEq, Eq, Structural)]
pub struct OutOfBounds {
    pub x: u16,
    pub y: u16,
}

/// Number of pixels of a `width`×`height` image.
fn area(width: u16, height: u16) -> (r: usize)
    ensures
        r == width * height,
        r <= 0xFFFF * 0xFFFF,
{
    assert(width * height <= 0xFFFF * 0xFFFF) by (nonlinear_arith)
        requires
            width <= 0xFFFF,
            height <= 0xFFFF,
    ;
    width as usize * height as usize
}

/// Storage index of the in-bounds position `(x, y)`.
fn storage_index(width: u16, height: u16, x: u16, y: u16) -> (r: usize)
    requires
        x < width,
        y < height,
    ensures
        r == y * width + x,
        r < width * height,
{
    proof {
        lemma_index_in_range(width as nat, height as nat, x as int, y as int);
    }
    assert(width * height <= 0xFFFF * 0xFFFF) by (nonlinear_arith)
        requires
            width <= 0xFFFF,
            height <= 0xFFFF,
    ;
    y as usize * width as usize + x as usize
}

/// A `width`×`height` buffer of pixels of type `T`, stored row by row.
pub struct ImageData<T> {
    width: u16,
    height: u16,
    data: Vec<T>,
}

impl<T> View for ImageData<T> {
    type V = ImageView<T>;

    closed spec fn view(&self) -> ImageView<T> {
        ImageView { width: self.width as nat, height: self.height as nat, pixels: self.data@ }
    }
}

impl<T: Default + Clone> ImageData<T> {
    /// A buffer of the given dimensions that holds no elements yet.
    pub fn new(width: u16, height: u16) -> (r: Self)
        ensures
            r@ == (ImageView::<T> { width: width as nat, height: height as nat, pixels: seq![] }),
    {
        let r = ImageData { width, height, data: Vec::new() };
        assert(r@.pixels =~= Seq::<T>::empty());
        r
    }

    /// A buffer of the given dimensions with every element a clone of one
    /// default value.
    pub fn new_allocate(width: u16, height: u16) -> (r: Self)
        ensures
            r@.width == width,
            r@.height == height,
            r@.allocated(),
            exists|d: T| default_filled(r@.pixels, d),
    {
        let mut r = ImageData::new(width, height);
        r.allocate();
        r
    }

    /// A buffer of the given dimensions that holds `data`.
    pub fn with_data(width: u16, height: u16, data: Vec<T>) -> (r: Self)
        requires
            data@.len() == width * height,
        ensures
            r@ == (ImageView::<T> { width: width as nat, height: height as nat, pixels: data@ }),
    {
        ImageData { width, height, data }
    }

    /// Discards the contents and fills the buffer with `width * height` clones
    /// of one default value.
    pub fn allocate(&mut self)
        ensures
            final(self)@.width == old(self)@.width,
            final(self)@.height == old(self)@.height,
            final(self)@.allocated(),
            exists|d: T| default_filled(final(self)@.pixels, d),
    {
        let d = T::default();
        let n: usize = area(self.width, self.height);
        self.data = vec![d; n];
        assert(default_filled(self.data@, d));
    }
}

impl<T> ImageData<T> {
    /// Width in pixels.
    pub fn width(&self) -> (r: u16)
        ensures
            r == self@.width,
    {
        self.width
    }

    /// Height in pixels.
    pub fn height(&self) -> (r: u16)
        ensures
            r == self@.height,
    {
        self.height
    }

    /// Mutable access to the element at `(x, y)`.
    pub fn pixel(&mut self, x: u16, y: u16) -> (r: &mut T)
        requires
            old(self)@.allocated(),
            old(self)@.in_bounds(x as int, y as int),
        ensures
            *r == old(self)@.pixel(x as int, y as int),
            final(self)@ == (ImageView {
                pixels: old(self)@.pixels.update(old(self)@.index_of(x as int, y as int), *final(r)),
                ..old(self)@
            }),
    {
        let i = storage_index(self.width, self.height, x, y);
        &mut self.data[i]
    }

    /// The element at `(x, y)`, or `None` outside the image.
    pub fn get(&self, x: u16, y: u16) -> (r: Option<&T>)
        requires
            self@.allocated(),
        ensures
            match r {
                Some(v) => self@.in_bounds(x as int, y as int) && *v == self@.pixel(x as int, y as int),
                None => !self@.in_bounds(x as int, y as int),
            },
    {
        if x >= self.width || y >= self.height {
            return None;
        }
        let i = storage_index(self.width, self.height, x, y);
        Some(&self.data[i])
    }

    /// Writes `value` at `(x, y)`; outside the image nothing changes and the
    /// position is returned as the error.
    pub fn set(&mut self, x: u16, y: u16, value: T) -> (r: Result<(), OutOfBounds>)
        requires
            old(self)@.allocated(),
        ensures
            old(self)@.in_bounds(x as int, y as int) ==> r is Ok && final(self)@ == (ImageView {
                pixels: old(self)@.pixels.update(old(self)@.index_of(x as int, y as int), value),
                ..old(self)@
            }),
            !old(self)@.in_bounds(x as int, y as int) ==> r == Err::<(), OutOfBounds>(
                OutOfBounds { x, y },
            ) && final(self)@ == old(self)@,
    {
        if x >= self.width || y >= self.height {
            return Err(OutOfBounds { x, y });
        }
        let i = storage_index(self.width, self.height, x, y);
        self.data.set(i, value);
        Ok(())
    }

}

impl<T: Default + Clone> ImageData<T> {
    /// Replaces every element with `function` of its current value, in
    /// storage order.
    pub fn map_each<F>(&mut self, function: F)
        where
            F: Fn(T) -> T,
        requires
            forall|i: int|
                0 <= i < old(self)@.pixels.len() ==> function.requires((old(self)@.pixels[i],)),
        ensures
            final(self)@.width == old(self)@.width,
            final(self)@.height == old(self)@.height,
            final(self)@.pixels.len() == old(self)@.pixels.len(),
            forall|i: int|
                0 <= i < old(self)@.pixels.len() ==> function.ensures(
                    (old(self)@.pixels[i],),
                    #[trigger] final(self)@.pixels[i],
                ),
    {
        let n = self.data.len();
        let mut i: usize = 0;
        while i < n
            invariant
                i <= n,
                n == old(self)@.pixels.len(),
                self.width == old(self).width,
                self.height == old(self).height,
                self.data@.len() == n,
                forall|j: int| i <= j < n ==> self.data@[j] == old(self)@.pixels[j],
                forall|j: int| 0 <= j < n ==> function.requires((old(self)@.pixels[j],)),
                forall|j: int|
                    0 <= j < i ==> function.ensures(
                        (old(self)@.pixels[j],),
                        #[trigger] self.data@[j],
                    ),
            decreases n - i,
        {
            let mut item = T::default();
            self.data.set_and_swap(i, &mut item);
            let next = function(item);
            self.data.set(i, next);
            i = i + 1;
        }
    }

    /// Replaces the element at every `(x, y)` with `function(x, y)`, rows from
    /// top to bottom and each row from left to right.
    pub fn map_coords<F>(&mut self, function: F)
        where
            F: Fn(u16, u16) -> T,
        requires
            old(self)@.allocated(),
            forall|x: u16, y: u16|
                #![trigger function.requires((x, y))]
                old(self)@.in_bounds(x as int, y as int) ==> function.requires((x, y)),
        ensures
            final(self)@.width == old(self)@.width,
            final(self)@.height == old(self)@.height,
            final(self)@.allocated(),
            final(self)@.filled_by(function),
    {
        let mut y: u16 = 0;
        while y < self.height
            invariant
                y <= self.height,
                self.width == old(self).width,
                self.height == old(self).height,
                self@.allocated(),
                forall|x: u16, y: u16|
                    #![trigger function.requires((x, y))]
                    self@.in_bounds(x as int, y as int) ==> function.requires((x, y)),
                forall|a: u16, b: u16|
                    #![trigger self@.pixel(a as int, b as int)]
                    self@.in_bounds(a as int, b as int) && b < y ==> function.ensures(
                        (a, b),
                        self@.pixel(a as int, b as int),
                    ),
            decreases self.height - y,
        {
            let mut x: u16 = 0;
            while x < self.width
                invariant
                    x <= self.width,
                    y < self.height,
                    self.width == old(self).width,
                    self.height == old(self).height,
                    self@.allocated(),
                    forall|x: u16, y: u16|
                        #![trigger function.requires((x, y))]
                        self@.in_bounds(x as int, y as int) ==> function.requires((x, y)),
                    forall|a: u16, b: u16|
                        #![trigger self@.pixel(a as int, b as int)]
                        self@.in_bounds(a as int, b as int) && (b < y || (b == y && a < x))
                            ==> function.ensures((a, b), self@.pixel(a as int, b as int)),
                decreases self.width - x,
            {
                let i = storage_index(self.width, self.height, x, y);
                let value = function(x, y);
                let ghost before = self@;
                self.data.set(i, value);
                assert forall|a: u16, b: u16|
                    #![trigger self@.pixel(a as int, b as int)]
                    self@.in_bounds(a as int, b as int) && (b < y || (b == y && a <= x))
                        implies function.ensures((a, b), self@.pixel(a as int, b as int)) by {
                    if b == y && a == x {
                    } else {
                        lemma_index_order(self.width as int, a as int, b as int, x as int, y as int);
                        assert(before.pixel(a as int, b as int) == self@.pixel(a as int, b as int));
                    }
                }
                x = x + 1;
            }
            y = y + 1;
        }
    }
}

/// Positions in row-major order have increasing storage indices.
pub proof fn lemma_index_order(w: int, x1: int, y1: int, x2: int, y2: int)
    requires
        0 <= x1 < w,
        0 <= x2 < w,
        0 <= y1,
        0 <= y2,
        y1 < y2 || (y1 == y2 && x1 < x2),
    ensures
        y1 * w + x1 < y2 * w + x2,
{
    if y1 < y2 {
        assert(y1 * w + w <= y2 * w) by (nonlinear_arith)
            requires
                y1 < y2,
                0 <= w,
        ;
    }
}

/// The bytes of every element of `s`, in order.
pub open spec fn encode_all<T: PlainPixel>(s: Seq<T>) -> Seq<u8>
    decreases s.len(),
{
    if s.len() == 0 {
        seq![]
    } else {
        encode_all(s.drop_last()) + s.last().encode()
    }
}

/// The `n` elements held, `T::byte_width()` bytes each, at the start of `b`.
pub open spec fn decode_all<T: PlainPixel>(b: Seq<u8>, n: nat) -> Seq<T> {
    Seq::new(
        n,
        |i: int| T::decode(b.subrange(i * T::byte_width(), i * T::byte_width() + T::byte_width())),
    )
}

/// The bytes of `n` elements take `n` times the width of one.
pub proof fn lemma_encode_all_len<T: PlainPixel>(s: Seq<T>)
    ensures
        encode_all(s).len() == s.len() * T::byte_width(),
    decreases s.len(),
{
    if s.len() > 0 {
        lemma_encode_all_len(s.drop_last());
        T::lemma_round_trip(s.last());
        assert((s.len() - 1) * T::byte_width() + T::byte_width() == s.len() * T::byte_width())
            by (nonlinear_arith);
    }
}

/// The bytes of element `i` stand at `i * byte_width()`.
pub proof fn lemma_encode_all_at<T: PlainPixel>(s: Seq<T>, i: int)
    requires
        0 <= i < s.len(),
    ensures
        i * T::byte_width() + T::byte_width() <= encode_all(s).len(),
        encode_all(s).subrange(i * T::byte_width(), i * T::byte_width() + T::byte_width())
            == s[i].encode(),
    decreases s.len(),
{
    let k = T::byte_width();
    let prefix = s.drop_last();
    lemma_encode_all_len(s);
    lemma_encode_all_len(prefix);
    T::lemma_round_trip(s.last());
    if i == s.len() - 1 {
        assert(i * k == prefix.len() * k);
        assert(encode_all(s).subrange(i * k, i * k + k) =~= s.last().encode());
    } else {
        lemma_encode_all_at(prefix, i);
        assert(encode_all(s).subrange(i * k, i * k + k) =~= encode_all(prefix).subrange(
            i * k,
            i * k + k,
        ));
    }
}

/// Bytes written for a sequence of elements read back as that sequence.
pub proof fn lemma_decode_encode_all<T: PlainPixel>(s: Seq<T>)
    ensures
        decode_all::<T>(encode_all(s), s.len()) == s,
{
    assert forall|i: int| 0 <= i < s.len() implies #[trigger] decode_all::<T>(
        encode_all(s),
        s.len(),
    )[i] == s[i] by {
        lemma_encode_all_at(s, i);
        T::lemma_round_trip(s[i]);
    }
    assert(decode_all::<T>(encode_all(s), s.len()) =~= s);
}

impl<T: PlainPixel> ImageData<T> {
    /// Byte size of a full buffer: `width * height` elements of
    /// `T::byte_width()` bytes each.
    pub fn get_data_size(&self) -> (r: usize)
        requires
            self@.width * self@.height * T::byte_width() <= usize::MAX,
        ensures
            r == self@.width * self@.height * T::byte_width(),
    {
        let k = T::size();
        let n = area(self.width, self.height);
        assert(n * k <= usize::MAX);
        n * k
    }

    /// The bytes of every element, in storage order.
    pub fn get_data(&self) -> (r: Vec<u8>)
        ensures
            r@ == encode_all(self@.pixels),
            r@.len() == self@.pixels.len() * T::byte_width(),
    {
        let mut out: Vec<u8> = Vec::new();
        let mut i: usize = 0;
        while i < self.data.len()
            invariant
                i <= self.data@.len(),
                out@ == encode_all(self.data@.take(i as int)),
            decreases self.data@.len() - i,
        {
            self.data[i].push_bytes(&mut out);
            assert(self.data@.take(i + 1).drop_last() =~= self.data@.take(i as int));
            i = i + 1;
        }
        assert(self.data@.take(i as int) =~= self.data@);
        proof {
            lemma_encode_all_len(self.data@);
        }
        out
    }

    /// A `width`×`height` buffer read from `bytes`, `T::byte_width()` bytes
    /// per element; `None` unless `bytes` holds exactly that many.
    pub fn from_bytes(width: u16, height: u16, bytes: &[u8]) -> (r: Option<Self>)
        ensures
            r is Some <==> bytes@.len() == width * height * T::byte_width(),
            r matches Some(img) ==> img@ == (ImageView {
                width: width as nat,
                height: height as nat,
                pixels: decode_all::<T>(bytes@, (width * height) as nat),
            }),
    {
        let k = T::size();
        let n = area(width, height);
        let len = bytes.len();
        assert(n * k <= 0xFFFF_FFFF * 0xFFFF_FFFF) by (nonlinear_arith)
            requires
                n <= 0xFFFF_FFFF,
                k <= 0xFFFF_FFFF,
        ;
        if n as u64 * k as u64 != len as u64 {
            return None;
        }
        let mut data: Vec<T> = Vec::new();
        let mut i: usize = 0;
        let mut at: usize = 0;
        while i < n
            invariant
                i <= n,
                n == width * height,
                k == T::byte_width(),
                len == bytes@.len(),
                n * k == len,
                at == i * k,
                data@ =~= decode_all::<T>(bytes@, n as nat).take(i as int),
            decreases n - i,
        {
            assert(at + k <= len && (i + 1) * k == at + k) by (nonlinear_arith)
                requires
                    at == i * k,
                    i < n,
                    n * k == len,
            ;
            let item = T::read_bytes(bytes, at);
            data.push(item);
            i = i + 1;
            at = at + k;
        }
        assert(data@ =~= decode_all::<T>(bytes@, n as nat));
        Some(ImageData { width, height, data })
    }
}

/// After `map_coords(f)`, reading `(x, y)` gives exactly `f(x, y)` wherever
/// `f` gives one value `g(x, y)` at each position.
pub proof fn lemma_map_coords_read<T, F: Fn(u16, u16) -> T>(
    img: ImageView<T>,
    f: F,
    g: spec_fn(u16, u16) -> T,
    x: u16,
    y: u16,
)
    requires
        img.filled_by(f),
        forall|a: u16, b: u16, v: T| #[trigger] f.ensures((a, b), v) ==> v == g(a, b),
        img.in_bounds(x as int, y as int),
    ensures
        img.pixel(x as int, y as int) == g(x, y),
{
    assert(f.ensures((x, y), img.pixel(x as int, y as int)));
}

/// The raw bytes of a full buffer number `width * height * byte_width()`, none
/// when either side is zero.
pub proof fn lemma_raw_size<T: PlainPixel>(img: ImageView<T>)
    requires
        img.allocated(),
    ensures
        encode_all(img.pixels).len() == img.width * img.height * T::byte_width(),
        img.width == 0 || img.height == 0 ==> encode_all(img.pixels).len() == 0,
{
    lemma_encode_all_len(img.pixels);
}

/// The raw bytes of a full buffer, read back at its dimensions, give its
/// elements again.
pub proof fn lemma_raw_round_trip<T: PlainPixel>(img: ImageView<T>)
    requires
        img.allocated(),
    ensures
        encode_all(img.pixels).len() == img.width * img.height * T::byte_width(),
        decode_all::<T>(encode_all(img.pixels), img.width * img.height) == img.pixels,
{
    lemma_encode_all_len(img.pixels);
    lemma_decode_encode_all(img.pixels);
}

/// Every element of `s` is a clone of `d`, a value that `T::default()` gives.
pub open spec fn default_filled<T: Default + Clone>(s: Seq<T>, d: T) -> bool {
    &&& call_ensures(T::default, (), d)
    &&& forall|i: int| 0 <= i < s.len() ==> cloned(d, #[trigger] s[i])
}

} // verus!
