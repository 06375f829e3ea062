use mandel::grid::{compute_row, coords_of, serial, ConfigError, MandelConfig};
use mandel::harness::{run_strategy, Strategy};
use mandel::strategies::{
    fill_from_rows, job_steal, job_steal_join, pixel_at, rayon_helper, rayon_join, rayon_par_iter,
    rust_scoped_pool, scoped_thread_pool_, simple_parallel_, split_rows, StrategyError,
};

fn escape_time(max_iter: u32, re: f64, im: f64) -> u32 {
    let (mut zr, mut zi) = (re, im);
    let mut iter = 0;
    while zr * zr + zi * zi <= 4.0 && iter < max_iter {
        let t = zr * zr - zi * zi + re;
        zi = 2.0 * zr * zi + im;
        zr = t;
        iter += 1;
    }
    iter
}

fn plane_pixel(max_iter: u32, size: u32) -> impl Fn(u32, u32) -> u32 + Sync + Send {
    let (re1, re2, img1, img2) = (-2.0f64, 1.0f64, -1.5f64, 1.5f64);
    let x_step = (re2 - re1) / (size as f64);
    let y_step = (img2 - img1) / (size as f64);
    move |x: u32, y: u32| escape_time(max_iter, re1 + (x as f64) * x_step, img1 + (y as f64) * y_step)
}

fn config(max_iter: u32, img_size: u32, num_threads: u32, runs: u32) -> MandelConfig {
    MandelConfig::new(max_iter, img_size, num_threads, runs, false, false).unwrap()
}

fn serial_image(cfg: &MandelConfig, pixel: &(impl Fn(u32, u32) -> u32 + Sync + Send)) -> Vec<u32> {
    let mut image = vec![0u32; cfg.num_pixels()];
    serial(cfg, pixel, &mut image);
    image
}

const ALL: [Strategy; 8] = [
    Strategy::Serial,
    Strategy::ScopedThreadPool,
    Strategy::SimpleParallel,
    Strategy::ScopedPool,
    Strategy::RayonJoin,
    Strategy::RayonParIter,
    Strategy::JobSteal,
    Strategy::JobStealJoin,
];

#[test]
fn config_accepts_valid_values() {
    let c = MandelConfig::new(100, 64, 4, 2, true, false).unwrap();
    assert_eq!(c.max_iter, 100);
    assert_eq!(c.img_size, 64);
    assert_eq!(c.num_threads, 4);
    assert_eq!(c.num_of_runs, 2);
    assert!(c.write_metadata);
    assert!(!c.no_ppm);
    assert_eq!(c.num_pixels(), 4096);
}

#[test]
fn config_rejects_zero_max_iter() {
    assert_eq!(MandelConfig::new(0, 64, 4, 2, false, false).unwrap_err(), ConfigError::ZeroMaxIter);
}

#[test]
fn config_rejects_zero_image_size() {
    assert_eq!(MandelConfig::new(10, 0, 4, 2, false, false).unwrap_err(), ConfigError::ZeroImageSize);
}

#[test]
fn config_rejects_zero_threads() {
    assert_eq!(MandelConfig::new(10, 8, 0, 2, false, false).unwrap_err(), ConfigError::ZeroThreads);
}

#[test]
fn config_reports_first_failing_check() {
    assert_eq!(MandelConfig::new(0, 0, 0, 0, false, false).unwrap_err(), ConfigError::ZeroMaxIter);
    assert_eq!(MandelConfig::new(5, 0, 0, 0, false, false).unwrap_err(), ConfigError::ZeroImageSize);
}

#[test]
fn coords_follow_row_major_layout() {
    assert_eq!(coords_of(64, 0), (0, 0));
    assert_eq!(coords_of(64, 63), (63, 0));
    assert_eq!(coords_of(64, 64), (0, 1));
    assert_eq!(coords_of(64, 64 * 3 + 5), (5, 3));
    assert_eq!(coords_of(7, 48), (6, 6));
}

#[test]
fn row_holds_pixel_values_of_its_scanline() {
    let row = compute_row(&|x: u32, y: u32| x * 10 + y, 4, 3);
    assert_eq!(row, vec![3, 13, 23, 33]);
}

#[test]
fn pixel_at_maps_index_to_coordinates() {
    let f = |x: u32, y: u32| x * 100 + y;
    assert_eq!(pixel_at(&f, 5, 0), 0);
    assert_eq!(pixel_at(&f, 5, 7), 201);
    assert_eq!(pixel_at(&f, 5, 24), 404);
}

#[test]
fn serial_fills_row_major_buffer() {
    let cfg = config(10, 3, 1, 1);
    let mut image = vec![0u32; 9];
    serial(&cfg, &|x: u32, y: u32| x + 10 * y, &mut image);
    assert_eq!(image, vec![0, 1, 2, 10, 11, 12, 20, 21, 22]);
}

#[test]
fn corner_pixel_maps_to_lower_left_of_plane() {
    let cfg = config(100, 64, 2, 1);
    let pixel = plane_pixel(100, 64);
    let image = serial_image(&cfg, &pixel);
    assert_eq!(image[0], escape_time(100, -2.0, -1.5));
    assert_eq!(image[0], 0);
}

#[test]
fn every_strategy_matches_serial() {
    let cfg = config(100, 64, 4, 1);
    let pixel = plane_pixel(100, 64);
    let expected = serial_image(&cfg, &pixel);
    for s in ALL {
        let mut image = vec![0u32; cfg.num_pixels()];
        assert_eq!(run_strategy(s, &cfg, &pixel, &mut image), Ok(()));
        assert_eq!(image, expected, "{:?}", s);
    }
}

#[test]
fn strategies_match_serial_on_odd_sizes() {
    for size in [1u32, 3, 7, 10, 13] {
        for threads in [1u32, 3] {
            let cfg = config(50, size, threads, 1);
            let pixel = plane_pixel(50, size);
            let expected = serial_image(&cfg, &pixel);
            for s in ALL {
                let mut image = vec![7u32; cfg.num_pixels()];
                assert_eq!(run_strategy(s, &cfg, &pixel, &mut image), Ok(()));
                assert_eq!(image, expected, "{:?} size {} threads {}", s, size, threads);
            }
        }
    }
}

#[test]
fn repeated_runs_give_identical_buffers() {
    let cfg = config(200, 32, 4, 1);
    let pixel = plane_pixel(200, 32);
    for s in ALL {
        let mut first = vec![0u32; cfg.num_pixels()];
        let mut second = vec![0u32; cfg.num_pixels()];
        run_strategy(s, &cfg, &pixel, &mut first).unwrap();
        run_strategy(s, &cfg, &pixel, &mut second).unwrap();
        assert_eq!(first, second, "{:?}", s);
    }
}

#[test]
fn single_pixel_image_holds_corner_value() {
    let cfg = config(1000, 1, 2, 1);
    let pixel = |x: u32, y: u32| escape_time(1000, 0.25 + x as f64, 0.0 + y as f64);
    for s in ALL {
        let mut image = vec![0u32; 1];
        run_strategy(s, &cfg, &pixel, &mut image).unwrap();
        assert_eq!(image, vec![escape_time(1000, 0.25, 0.0)], "{:?}", s);
    }
}

#[test]
fn sentinel_is_overwritten_everywhere() {
    let cfg = config(64, 17, 3, 1);
    let pixel = plane_pixel(64, 17);
    for s in ALL {
        let mut image = vec![u32::MAX; cfg.num_pixels()];
        run_strategy(s, &cfg, &pixel, &mut image).unwrap();
        assert!(image.iter().all(|&v| v != u32::MAX), "{:?}", s);
    }
}

#[test]
fn previous_content_leaves_no_residue() {
    let cfg = config(30, 9, 2, 1);
    let first = |x: u32, y: u32| x + y;
    let second = |x: u32, y: u32| x * y + 1;
    let expected = serial_image(&cfg, &second);
    for s in ALL {
        let mut image = vec![0u32; cfg.num_pixels()];
        run_strategy(s, &cfg, &first, &mut image).unwrap();
        run_strategy(s, &cfg, &second, &mut image).unwrap();
        assert_eq!(image, expected, "{:?}", s);
    }
}

#[test]
fn scoped_thread_pool_fills_buffer() {
    let cfg = config(10, 4, 2, 1);
    let mut image = vec![0u32; 16];
    scoped_thread_pool_(&cfg, &|x: u32, y: u32| 4 * y + x, &mut image);
    assert_eq!(image, (0..16).collect::<Vec<u32>>());
}

#[test]
fn rayon_join_fills_buffer() {
    let cfg = config(10, 5, 2, 1);
    let mut image = vec![0u32; 25];
    assert_eq!(rayon_join(&cfg, &|x: u32, y: u32| 5 * y + x, &mut image), Ok(()));
    assert_eq!(image, (0..25).collect::<Vec<u32>>());
}

#[test]
fn rayon_par_iter_fills_buffer() {
    let cfg = config(10, 6, 3, 1);
    let mut image = vec![0u32; 36];
    assert_eq!(rayon_par_iter(&cfg, &|x: u32, y: u32| 6 * y + x, &mut image), Ok(()));
    assert_eq!(image, (0..36).collect::<Vec<u32>>());
}

#[test]
fn job_steal_fills_buffer() {
    let cfg = config(10, 3, 1, 1);
    let mut image = vec![0u32; 9];
    assert_eq!(job_steal(&cfg, &|x: u32, y: u32| 3 * y + x, &mut image), Ok(()));
    assert_eq!(image, (0..9).collect::<Vec<u32>>());
}

#[test]
fn job_steal_join_fills_buffer() {
    let cfg = config(10, 7, 4, 1);
    let mut image = vec![0u32; 49];
    assert_eq!(job_steal_join(&cfg, &|x: u32, y: u32| 7 * y + x, &mut image), Ok(()));
    assert_eq!(image, (0..49).collect::<Vec<u32>>());
}

#[test]
fn strategy_error_is_comparable() {
    assert_eq!(StrategyError::PoolCreation, StrategyError::PoolCreation);
}

#[test]
fn split_rows_cuts_at_scanline_boundary() {
    let region: Vec<u32> = (0..10).collect();
    let (top, bottom, half) = split_rows(2, region);
    assert_eq!(half, 2);
    assert_eq!(top, vec![0, 1, 2, 3]);
    assert_eq!(bottom, vec![4, 5, 6, 7, 8, 9]);
}

#[test]
fn rayon_helper_fills_rows_from_start_row() {
    let out = rayon_helper(&|x: u32, y: u32| 10 * y + x, 3, vec![0u32; 9], 4);
    assert_eq!(out, vec![40, 41, 42, 50, 51, 52, 60, 61, 62]);
}

#[test]
fn fill_from_rows_places_scanlines() {
    let rows = vec![vec![1, 2], vec![3, 4]];
    let mut image = vec![0u32; 4];
    fill_from_rows(&|x: u32, y: u32| 2 * y + x + 1, 2, &rows, &mut image);
    assert_eq!(image, vec![1, 2, 3, 4]);
}

#[test]
fn simple_parallel_fills_buffer() {
    let cfg = config(10, 5, 3, 1);
    let mut image = vec![0u32; 25];
    simple_parallel_(&cfg, &|x: u32, y: u32| 5 * y + x, &mut image);
    assert_eq!(image, (0..25).collect::<Vec<u32>>());
}

#[test]
fn rust_scoped_pool_fills_buffer() {
    let cfg = config(10, 6, 2, 1);
    let mut image = vec![0u32; 36];
    rust_scoped_pool(&cfg, &|x: u32, y: u32| 6 * y + x, &mut image);
    assert_eq!(image, (0..36).collect::<Vec<u32>>());
}

#[test]
fn job_steal_strategies_with_one_thread_succeed() {
    let cfg = config(10, 4, 1, 1);
    let mut a = vec![0u32; 16];
    let mut b = vec![0u32; 16];
    assert_eq!(job_steal(&cfg, &|x: u32, y: u32| 4 * y + x, &mut a), Ok(()));
    assert_eq!(job_steal_join(&cfg, &|x: u32, y: u32| 4 * y + x, &mut b), Ok(()));
    assert_eq!(a, (0..16).collect::<Vec<u32>>());
    assert_eq!(b, a);
}
