use cavegen::float_order::{compare_bits, is_nan, total_order_key, FloatOrder};
use cavegen::gradient::{ColorInterpolator, Gradient, InterpolationMethod, Sample};
use cavegen::sorting::{argsort_by_key, stable_order};

fn b(x: f32) -> u32 {
    x.to_bits()
}

#[test]
fn compare_orders_finite_values() {
    assert_eq!(compare_bits(b(1.0), b(2.0)), Some(FloatOrder::Less));
    assert_eq!(compare_bits(b(2.0), b(1.0)), Some(FloatOrder::Greater));
    assert_eq!(compare_bits(b(-3.5), b(-1.0)), Some(FloatOrder::Less));
    assert_eq!(compare_bits(b(-1.0), b(0.25)), Some(FloatOrder::Less));
    assert_eq!(compare_bits(b(0.5), b(0.5)), Some(FloatOrder::Equal));
    assert_eq!(compare_bits(b(f32::NEG_INFINITY), b(f32::MIN)), Some(FloatOrder::Less));
    assert_eq!(compare_bits(b(f32::INFINITY), b(f32::MAX)), Some(FloatOrder::Greater));
}

#[test]
fn compare_treats_signed_zeros_as_equal() {
    assert_eq!(compare_bits(b(-0.0), b(0.0)), Some(FloatOrder::Equal));
    assert_eq!(total_order_key(b(-0.0)), total_order_key(b(0.0)));
}

#[test]
fn compare_leaves_nan_unordered() {
    assert!(is_nan(b(f32::NAN)));
    assert!(!is_nan(b(f32::INFINITY)));
    assert_eq!(compare_bits(b(f32::NAN), b(1.0)), None);
    assert_eq!(compare_bits(b(1.0), b(-f32::NAN)), None);
}

#[test]
fn compare_agrees_with_f32_partial_cmp() {
    let values = [
        -f32::INFINITY, -1e30, -2.5, -1.0, -1e-40, -0.0, 0.0, 1e-40, 0.5, 1.0, 3.0, 1e30,
        f32::INFINITY, f32::NAN,
    ];
    for &x in values.iter() {
        for &y in values.iter() {
            let expected = x.partial_cmp(&y).map(|o| match o {
                std::cmp::Ordering::Less => FloatOrder::Less,
                std::cmp::Ordering::Equal => FloatOrder::Equal,
                std::cmp::Ordering::Greater => FloatOrder::Greater,
            });
            assert_eq!(compare_bits(b(x), b(y)), expected, "{} vs {}", x, y);
        }
    }
}

#[test]
fn total_order_puts_nan_last() {
    assert!(total_order_key(b(f32::INFINITY)) < total_order_key(b(f32::NAN)));
    assert_eq!(total_order_key(b(f32::NAN)), total_order_key(b(-f32::NAN)));
    assert!(total_order_key(b(-5.0)) < total_order_key(b(-4.0)));
}

#[test]
fn stable_order_keeps_equal_keys_in_place() {
    let keys: Vec<i64> = vec![3, 1, 3, 0, 1];
    assert_eq!(stable_order(&keys), vec![3, 1, 4, 0, 2]);
    assert_eq!(stable_order(&Vec::new()), Vec::<usize>::new());
}

#[test]
fn argsort_by_key_sorts_by_the_key() {
    let words = ["pear", "fig", "banana", "kiwi", "plum"];
    let order = argsort_by_key(&words, |w: &&str| w.len() as i64);
    assert_eq!(order, vec![1, 0, 3, 4, 2]);
}

#[test]
fn interpolation_method_names() {
    assert_eq!(InterpolationMethod::Linear.to_string(), "linear");
    assert_eq!(InterpolationMethod::Constant.to_string(), "constant");
}

fn gradient(method: InterpolationMethod, stops: &[(f32, char)]) -> Gradient<char> {
    Gradient::new(method, stops.iter().map(|&(t, c)| (b(t), c)).collect())
}

#[test]
fn argsort_and_sort_agree() {
    let mut g = gradient(
        InterpolationMethod::Linear,
        &[(0.5, 'b'), (0.0, 'a'), (f32::NAN, 'n'), (1.0, 'c'), (0.5, 'd')],
    );
    let order = g.argsort();
    assert_eq!(order, vec![1, 0, 4, 3, 2]);
    let before = g.stops.clone();
    g.sort();
    for (k, &i) in order.iter().enumerate() {
        assert_eq!(g.stops[k], before[i]);
    }
    let colors: Vec<char> = g.stops.iter().map(|s| s.1).collect();
    assert_eq!(colors, vec!['a', 'b', 'd', 'c', 'n']);
    let again = g.argsort();
    assert_eq!(again, vec![0, 1, 2, 3, 4]);
}

#[test]
fn bisect_counts_stops_at_or_before() {
    let g = gradient(InterpolationMethod::Constant, &[(1.0, 'c'), (0.0, 'a'), (0.5, 'b')]);
    let interp = g.interpolator();
    assert_eq!(interp.len(), 3);
    assert_eq!(interp.bisect(b(-1.0)), Some(0));
    assert_eq!(interp.bisect(b(0.0)), Some(1));
    assert_eq!(interp.bisect(b(-0.0)), Some(1));
    assert_eq!(interp.bisect(b(0.25)), Some(1));
    assert_eq!(interp.bisect(b(0.5)), Some(2));
    assert_eq!(interp.bisect(b(2.0)), Some(3));
    assert_eq!(interp.bisect(b(f32::NAN)), None);
}

#[test]
fn bisect_on_empty_gradient() {
    let g: Gradient<char> = gradient(InterpolationMethod::Linear, &[]);
    let interp = g.interpolator();
    assert_eq!(interp.bisect(b(0.5)), Some(0));
    assert_eq!(interp.bisect(b(f32::NAN)), Some(0));
    assert_eq!(interp.sample_at(b(0.5)), None);
}

#[test]
fn constant_sampling_takes_the_stop_to_the_left() {
    let g = gradient(InterpolationMethod::Constant, &[(0.0, 'a'), (0.5, 'b'), (1.0, 'c')]);
    let interp = g.interpolator();
    assert_eq!(interp.method(), InterpolationMethod::Constant);
    assert_eq!(interp.sample_at(b(-0.5)), Some(Sample::Color('a')));
    assert_eq!(interp.sample_at(b(0.0)), Some(Sample::Color('a')));
    assert_eq!(interp.sample_at(b(0.4)), Some(Sample::Color('a')));
    assert_eq!(interp.sample_at(b(0.5)), Some(Sample::Color('b')));
    assert_eq!(interp.sample_at(b(0.9)), Some(Sample::Color('b')));
    assert_eq!(interp.sample_at(b(7.0)), Some(Sample::Color('c')));
    assert_eq!(interp.sample_at(b(f32::NAN)), None);
}

#[test]
fn linear_sampling_names_the_bracketing_stops() {
    let g = gradient(InterpolationMethod::Linear, &[(1.0, 'c'), (0.0, 'a'), (0.5, 'b')]);
    let interp = g.interpolator();
    assert_eq!(interp.sample_at(b(-1.0)), Some(Sample::Color('a')));
    assert_eq!(
        interp.sample_at(b(0.25)),
        Some(Sample::Between { t0: b(0.0), c0: 'a', t1: b(0.5), c1: 'b' })
    );
    assert_eq!(
        interp.sample_at(b(0.5)),
        Some(Sample::Between { t0: b(0.5), c0: 'b', t1: b(1.0), c1: 'c' })
    );
    assert_eq!(interp.sample_at(b(1.0)), Some(Sample::Color('c')));
    assert_eq!(interp.sample_at(b(3.0)), Some(Sample::Color('c')));
}

#[test]
fn sampling_meets_a_nan_stop() {
    let g = gradient(InterpolationMethod::Linear, &[(0.0, 'a'), (f32::NAN, 'n')]);
    let interp = g.interpolator();
    // The first probe lands on the NaN stop.
    assert_eq!(interp.bisect(b(0.5)), None);
    assert_eq!(interp.sample_at(b(0.5)), None);
}

#[test]
fn interpolator_of_new_sorts_its_keys() {
    let interp = ColorInterpolator::new(
        vec![(b(0.75), 'x'), (b(0.25), 'y')],
        InterpolationMethod::Constant,
    );
    assert_eq!(interp.sample_at(b(0.3)), Some(Sample::Color('y')));
    assert_eq!(interp.sample_at(b(0.8)), Some(Sample::Color('x')));
}

#[test]
fn new_stop_bounds_with_few_stops() {
    let mut g = gradient(InterpolationMethod::Linear, &[(0.3, 'a')]);
    assert_eq!(g.new_stop_bounds(Some(0)), (Some(0), None));
    assert_eq!(g.stops, vec![(b(0.3), 'a')]);
}

#[test]
fn new_stop_bounds_default_to_the_last_gap() {
    let mut g = gradient(InterpolationMethod::Linear, &[(1.0, 'c'), (0.0, 'a'), (0.5, 'b')]);
    let (sel, bounds) = g.new_stop_bounds(None);
    assert_eq!(sel, None);
    assert_eq!(bounds, Some((b(0.5), b(1.0))));
    assert_eq!(g.stops, vec![(b(0.0), 'a'), (b(0.5), 'b'), (b(1.0), 'c')]);
}

#[test]
fn new_stop_bounds_map_the_selection_through_argsort() {
    let mut g = gradient(InterpolationMethod::Linear, &[(1.0, 'c'), (0.0, 'a'), (0.5, 'b')]);
    // argsort is [1, 2, 0]: a selection of 0 becomes 1, 1 becomes 2.
    let (sel, bounds) = g.new_stop_bounds(Some(0));
    assert_eq!(sel, Some(1));
    assert_eq!(bounds, Some((b(0.0), b(0.5))));
    let mut g = gradient(InterpolationMethod::Linear, &[(1.0, 'c'), (0.0, 'a'), (0.5, 'b')]);
    let (sel, bounds) = g.new_stop_bounds(Some(2));
    assert_eq!(sel, Some(0));
    assert_eq!(bounds, Some((b(0.0), b(0.5))));
}

#[test]
fn interpolator_with_converts_then_orders() {
    let g = gradient(InterpolationMethod::Constant, &[(0.9, 'z'), (0.1, 'a')]);
    let interp = g.interpolator_with(|c: char| c.to_ascii_uppercase());
    assert_eq!(interp.len(), 2);
    assert_eq!(interp.sample_at(b(0.5)), Some(Sample::Color('A')));
    assert_eq!(interp.sample_at(b(1.5)), Some(Sample::Color('Z')));
}

#[test]
fn sampling_ignores_stop_order() {
    let stops = vec![(b(0.0), 'a'), (b(0.5), 'b'), (b(1.0), 'c')];
    let shuffled = vec![(b(1.0), 'c'), (b(0.0), 'a'), (b(0.5), 'b')];
    for method in [InterpolationMethod::Linear, InterpolationMethod::Constant] {
        let g1 = Gradient::new(method, stops.clone());
        let g2 = Gradient::new(method, shuffled.clone());
        let i1 = g1.interpolator();
        let i2 = g2.interpolator();
        for x in [-1.0f32, 0.0, 0.25, 0.5, 0.75, 1.0, 2.0] {
            assert_eq!(i1.sample_at(b(x)), i2.sample_at(b(x)));
        }
    }
}
