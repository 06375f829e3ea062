use mandel::grid::MandelConfig;
use mandel::harness::{elapsed_ns, measure, summarize, Strategy};
use mandel::ppm::{encode_ppm, push_decimal, push_pixel};

#[test]
fn statistics_of_three_samples() {
    let st = summarize(&vec![10, 20, 30]).unwrap();
    assert_eq!(st.mean, 20);
    assert_eq!(st.min, 10);
    assert_eq!(st.max, 30);
    assert_eq!(st.total, 60);
    assert_eq!(st.count, 3);
}

#[test]
fn statistics_in_nanoseconds() {
    let st = summarize(&vec![30_000_000, 10_000_000, 20_000_000]).unwrap();
    assert_eq!((st.mean, st.min, st.max), (20_000_000, 10_000_000, 30_000_000));
}

#[test]
fn statistics_round_mean_down() {
    let st = summarize(&vec![1, 2]).unwrap();
    assert_eq!(st.mean, 1);
    assert_eq!(st.total, 3);
}

#[test]
fn statistics_of_large_samples_do_not_overflow() {
    let st = summarize(&vec![u64::MAX, u64::MAX, u64::MAX]).unwrap();
    assert_eq!(st.mean, u64::MAX);
    assert_eq!(st.total, 3 * (u64::MAX as u128));
}

#[test]
fn statistics_of_no_samples() {
    assert!(summarize(&vec![]).is_none());
}

#[test]
fn elapsed_counts_forward_only() {
    assert_eq!(elapsed_ns(100, 350), 250);
    assert_eq!(elapsed_ns(350, 100), 0);
    assert_eq!(elapsed_ns(5, 5), 0);
}

#[test]
fn measure_records_one_sample_per_run() {
    let cfg = MandelConfig::new(20, 8, 2, 3, false, true).unwrap();
    let pixel = |x: u32, y: u32| x ^ y;
    for s in [Strategy::Serial, Strategy::RayonJoin, Strategy::JobStealJoin] {
        let mut image = vec![0u32; 64];
        let samples = measure(s, &cfg, &pixel, &mut image).unwrap();
        assert_eq!(samples.len(), 3);
        assert_eq!(image[8 * 3 + 5], 3 ^ 5);
    }
}

#[test]
fn measure_with_no_runs_leaves_buffer() {
    let cfg = MandelConfig::new(20, 2, 1, 0, false, true).unwrap();
    let mut image = vec![9u32; 4];
    let samples = measure(Strategy::Serial, &cfg, &|_x: u32, _y: u32| 1, &mut image).unwrap();
    assert!(samples.is_empty());
    assert_eq!(image, vec![9, 9, 9, 9]);
}

#[test]
fn decimal_digits() {
    let mut out = Vec::new();
    push_decimal(&mut out, 0);
    out.push(b' ');
    push_decimal(&mut out, 240);
    out.push(b' ');
    push_decimal(&mut out, 4096);
    out.push(b' ');
    push_decimal(&mut out, u32::MAX);
    assert_eq!(String::from_utf8(out).unwrap(), "0 240 4096 4294967295");
}

#[test]
fn pixel_colours() {
    let mut out = Vec::new();
    push_pixel(&mut out, 100, 100);
    push_pixel(&mut out, 100, 17);
    push_pixel(&mut out, 100, 15);
    push_pixel(&mut out, 100, 0);
    assert_eq!(String::from_utf8(out).unwrap(), "0 0 0 255 16 0 255 240 0 255 0 0 ");
}

#[test]
fn ppm_of_two_by_two_image() {
    let out = encode_ppm(4, 2, &vec![4, 1, 2, 4], &vec![]);
    assert_eq!(
        String::from_utf8(out).unwrap(),
        "P3\n# mandelbrot, max_iter: 4\n2 2\n255\n0 0 0 255 16 0 \n255 32 0 0 0 0 \n"
    );
}

#[test]
fn ppm_with_extra_comment() {
    let comment = b"# computation time: 1.5 ms\n".to_vec();
    let out = encode_ppm(4096, 1, &vec![33], &comment);
    assert_eq!(
        String::from_utf8(out).unwrap(),
        "P3\n# mandelbrot, max_iter: 4096\n# computation time: 1.5 ms\n1 1\n255\n255 16 0 \n"
    );
}
