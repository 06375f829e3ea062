use vstd::prelude::*;

verus! {

/// Run parameters that the partitioning logic reads: the raster edge length,
/// the escape-time ceiling, the worker count and the number of timed runs.
/// The plane bounds are floating-point values and stay with the caller, which
/// folds them into the pixel function.
#[derive(Clone, Copy, Debug)]
pub struct MandelConfig {
    pub max_iter: u32,
    pub img_size: u32,
    pub write_metadata: bool,
    pub no_ppm: bool,
    pub num_threads: u32,
    pub num_of_runs: u32,
}

/// Why a configuration is refused.
#[derive(Clone, Copy, Debug, PartialEq, Eq, Structural)]
pub enum ConfigError {
    ZeroMaxIter,
    ZeroImageSize,
    ZeroThreads,
    /// `img_size * img_size` pixels do not fit in the address space.
    ImageTooLarge,
}

impl MandelConfig {
    /// A configuration whose buffer can be allocated and whose pools can be built.
    pub open spec fn wf(&self) -> bool {
        &&& self.max_iter > 0
        &&& self.img_size > 0
        &&& self.num_threads > 0
        &&& self.img_size as nat * self.img_size as nat <= usize::MAX as nat
    }

    /// Number of pixels of the square raster.
    pub open spec fn area(&self) -> nat {
        self.img_size as nat * self.img_size as nat
    }

    /// Checks the integer run parameters; the first failing check decides the error.
    pub fn new(
        max_iter: u32,
        img_size: u32,
        num_threads: u32,
        num_of_runs: u32,
        write_metadata: bool,
        no_ppm: bool,
    ) -> (r: Result<MandelConfig, ConfigError>)
        ensures
            max_iter == 0 ==> r == Err::<MandelConfig, ConfigError>(ConfigError::ZeroMaxIter),
            max_iter > 0 && img_size == 0 ==> r == Err::<MandelConfig, ConfigError>(
                ConfigError::ZeroImageSize,
            ),
            max_iter > 0 && img_size > 0 && num_threads == 0 ==> r == Err::<
                MandelConfig,
                ConfigError,
            >(ConfigError::ZeroThreads),
            max_iter > 0 && img_size > 0 && num_threads > 0 && img_size as nat * img_size as nat
                > usize::MAX as nat ==> r == Err::<MandelConfig, ConfigError>(
                ConfigError::ImageTooLarge,
            ),
            r is Ok <==> max_iter > 0 && img_size > 0 && num_threads > 0 && img_size as nat
                * img_size as nat <= usize::MAX as nat,
            r matches Ok(c) ==> c.wf() && c.max_iter == max_iter && c.img_size == img_size
                && c.num_threads == num_threads && c.num_of_runs == num_of_runs
                && c.write_metadata == write_metadata && c.no_ppm == no_ppm,
    {
        if max_iter == 0 {
            return Err(ConfigError::ZeroMaxIter);
        }
        if img_size == 0 {
            return Err(ConfigError::ZeroImageSize);
        }
        if num_threads == 0 {
            return Err(ConfigError::ZeroThreads);
        }
        let side = img_size as u64;
        proof {
            assert(side * side <= 0xffff_ffff_ffff_ffff) by (nonlinear_arith)
                requires
                    side <= 0xffff_ffff,
            ;
        }
        let area = side * side;
        if area > usize::MAX as u64 {
            return Err(ConfigError::ImageTooLarge);
        }
        Ok(MandelConfig { max_iter, img_size, write_metadata, no_ppm, num_threads, num_of_runs })
    }

    /// Number of pixels of the raster, the length every output buffer has.
    pub fn num_pixels(&self) -> (r: usize)
        requires
            self.wf(),
        ensures
            r == self.area(),
    {
        (self.img_size as usize) * (self.img_size as usize)
    }
}

/// The pixel function accepts every column and row.
pub open spec fn total<F: Fn(u32, u32) -> u32>(pixel: &F) -> bool {
    forall|x: u32, y: u32| #[trigger] pixel.requires((x, y))
}

/// The pixel function gives one value per column and row.
pub open spec fn deterministic<F: Fn(u32, u32) -> u32>(pixel: &F) -> bool {
    forall|x: u32, y: u32, a: u32, b: u32|
        #[trigger] pixel.ensures((x, y), a) && #[trigger] pixel.ensures((x, y), b) ==> a == b
}

/// Column of the pixel at a row-major buffer index.
pub open spec fn col_of(size: nat, i: int) -> int {
    i % (size as int)
}

/// Row of the pixel at a row-major buffer index.
pub open spec fn row_of(size: nat, i: int) -> int {
    i / (size as int)
}

/// `row` holds the pixel values of scanline `y` of a raster `size` pixels wide.
pub open spec fn row_rendered<F: Fn(u32, u32) -> u32>(
    pixel: &F,
    size: nat,
    y: int,
    row: Seq<u32>,
) -> bool {
    &&& row.len() == size
    &&& forall|x: int| 0 <= x < size ==> pixel.ensures((x as u32, y as u32), #[trigger] row[x])
}

/// `image` is the complete row-major raster: every index holds the pixel value
/// of the column and row that the index maps to.
pub open spec fn rendered<F: Fn(u32, u32) -> u32>(pixel: &F, size: nat, image: Seq<u32>) -> bool {
    &&& image.len() == size * size
    &&& forall|i: int|
        0 <= i < image.len() ==> pixel.ensures(
            (col_of(size, i) as u32, row_of(size, i) as u32),
            #[trigger] image[i],
        )
}

/// Index `y * size + x` maps back to column `x` and row `y`.
pub proof fn lemma_index_coords(size: nat, y: int, x: int)
    requires
        0 <= x < size,
        0 <= y,
    ensures
        col_of(size, y * size + x) == x,
        row_of(size, y * size + x) == y,
{
    vstd::arithmetic::div_mod::lemma_fundamental_div_mod_converse(y * size + x, size as int, y, x);
}

/// Index `y * size + x` lies inside a raster of `rows` scanlines when `y < rows`.
pub proof fn lemma_index_bound(size: nat, rows: nat, y: int, x: int)
    requires
        0 <= x < size,
        0 <= y < rows,
    ensures
        y * size + x < rows * size,
        0 <= y * size + x,
{
    assert(y * size + x < rows * size) by (nonlinear_arith)
        requires
            0 <= x < size,
            0 <= y < rows,
    ;
    assert(0 <= y * size) by (nonlinear_arith)
        requires
            0 <= y,
    ;
}

/// Splits a row-major buffer index into its column and row.
pub fn coords_of(size: u32, index: usize) -> (r: (u32, u32))
    requires
        size > 0,
        index < size as nat * size as nat,
    ensures
        r.0 as int == col_of(size as nat, index as int),
        r.1 as int == row_of(size as nat, index as int),
{
    let s = size as usize;
    let y: usize = index / s;
    let x: usize = index % s;
    proof {
        assert(y < size) by (nonlinear_arith)
            requires
                y == index as int / size as int,
                size > 0,
                index < size * size,
        ;
    }
    (x as u32, y as u32)
}

/// Computes scanline `y`: the pixel values of columns `0..size`.
pub fn compute_row<F: Fn(u32, u32) -> u32>(pixel: &F, size: u32, y: u32) -> (r: Vec<u32>)
    requires
        total(pixel),
    ensures
        row_rendered(pixel, size as nat, y as int, r@),
{
    let mut row: Vec<u32> = Vec::with_capacity(size as usize);
    let mut x: u32 = 0;
    while x < size
        invariant
            total(pixel),
            x <= size,
            row@.len() == x,
            forall|k: int| 0 <= k < x ==> pixel.ensures((k as u32, y), #[trigger] row@[k]),
        decreases size - x,
    {
        let v = pixel(x, y);
        row.push(v);
        x = x + 1;
    }
    row
}

/// Serial strategy: one thread scans the raster row by row. This is the
/// baseline that every other strategy agrees with.
pub fn serial<F: Fn(u32, u32) -> u32>(mandel_config: &MandelConfig, pixel: &F, image: &mut Vec<u32>)
    requires
        mandel_config.wf(),
        total(pixel),
        old(image)@.len() == mandel_config.area(),
    ensures
        rendered(pixel, mandel_config.img_size as nat, final(image)@),
{
    let size = mandel_config.img_size;
    let ghost n = size as nat;
    let mut y: u32 = 0;
    while y < size
        invariant
            total(pixel),
            y <= size,
            n == size,
            n * n <= usize::MAX,
            image@.len() == n * n,
            forall|i: int|
                0 <= i < y * n ==> pixel.ensures(
                    (col_of(n, i) as u32, row_of(n, i) as u32),
                    #[trigger] image@[i],
                ),
        decreases size - y,
    {
        let mut x: u32 = 0;
        while x < size
            invariant
                total(pixel),
                y < size,
                x <= size,
                n == size,
                n * n <= usize::MAX,
                image@.len() == n * n,
                forall|i: int|
                    0 <= i < y * n + x ==> pixel.ensures(
                        (col_of(n, i) as u32, row_of(n, i) as u32),
                        #[trigger] image@[i],
                    ),
            decreases size - x,
        {
            proof {
                lemma_index_bound(n, n, y as int, x as int);
                lemma_index_coords(n, y as int, x as int);
            }
            let idx: usize = (y as usize) * (size as usize) + (x as usize);
            let v = pixel(x, y);
            image.set(idx, v);
            x = x + 1;
        }
        proof {
            assert((y + 1) * n == y * n + n) by (nonlinear_arith);
        }
        y = y + 1;
    }
}

} // verus!
