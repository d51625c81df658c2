use mandelbrot::complex::check_bounded;
use mandelbrot::complex::Bound;
use mandelbrot::complex::BoundsSettings;
use mandelbrot::decimal::Decimal;
use mandelbrot::render::render;
use mandelbrot::render::render_row;
use mandelbrot::render::render_with_engine;
use mandelbrot::render::ConfigError;
use mandelbrot::render::EngineSet;
use mandelbrot::render::RenderEngine;
use mandelbrot::render::RenderError;
use mandelbrot::render::RenderSettings;
use mandelbrot::render::Viewport;
use mandelbrot::types::ManCount;
use mandelbrot::types::ManMask;
use mandelbrot::types::ManType;

fn to_f64(value: &Decimal) -> f64 {
    let negative = matches!(value.bytes.last(), Some(top) if *top >= 128);
    let mut unscaled = if negative { -1.0f64 } else { 0.0f64 };
    for byte in value.bytes.iter().rev() {
        unscaled = unscaled * 256.0 + *byte as f64;
    }
    unscaled / 10f64.powi(value.scale as i32)
}

/// Double-precision scalars.
struct F64(f64);

impl ManType for F64 {
    type TypeMask = bool;
    type Elem = f64;

    fn new(value: &Decimal, _precision: u32) -> Self {
        F64(to_f64(value))
    }

    fn mask(_precision: u32) -> Self {
        F64(0.0)
    }

    fn zero(_precision: u32) -> Self {
        F64(0.0)
    }

    fn check(&self, other: &Self) -> bool {
        self.0 < other.0
    }

    fn len() -> usize {
        1
    }

    fn plus(&self, other: &Self, _precision: u32) -> Self {
        F64(self.0 + other.0)
    }

    fn minus(&self, other: &Self, _precision: u32) -> Self {
        F64(self.0 - other.0)
    }

    fn times(&self, other: &Self, _precision: u32) -> Self {
        F64(self.0 * other.0)
    }
}

/// Single-precision scalars.
struct F32(f32);

impl ManType for F32 {
    type TypeMask = bool;
    type Elem = f32;

    fn new(value: &Decimal, _precision: u32) -> Self {
        F32(to_f64(value) as f32)
    }

    fn mask(_precision: u32) -> Self {
        F32(0.0)
    }

    fn zero(_precision: u32) -> Self {
        F32(0.0)
    }

    fn check(&self, other: &Self) -> bool {
        self.0 < other.0
    }

    fn len() -> usize {
        1
    }

    fn plus(&self, other: &Self, _precision: u32) -> Self {
        F32(self.0 + other.0)
    }

    fn minus(&self, other: &Self, _precision: u32) -> Self {
        F32(self.0 - other.0)
    }

    fn times(&self, other: &Self, _precision: u32) -> Self {
        F32(self.0 * other.0)
    }
}

/// Four double-precision lanes.
struct X4([f64; 4]);

struct M4([bool; 4]);

struct C4([u32; 4]);

impl ManCount for C4 {
    fn lane(&self, i: usize) -> u32 {
        self.0[i]
    }

    fn plus(&self, other: &Self) -> Self {
        C4([
            self.0[0] + other.0[0],
            self.0[1] + other.0[1],
            self.0[2] + other.0[2],
            self.0[3] + other.0[3],
        ])
    }
}

impl ManMask for M4 {
    type TypeCount = C4;

    fn check(&self) -> bool {
        self.0.iter().any(|b| *b)
    }

    fn new_count(value: u32) -> C4 {
        C4([value; 4])
    }

    fn count_zero() -> C4 {
        C4([0; 4])
    }

    fn to_count(&self) -> C4 {
        C4([self.0[0] as u32, self.0[1] as u32, self.0[2] as u32, self.0[3] as u32])
    }

    fn lane(&self, i: usize) -> bool {
        self.0[i]
    }

    fn equal(a: &C4, b: &C4) -> M4 {
        M4([a.0[0] == b.0[0], a.0[1] == b.0[1], a.0[2] == b.0[2], a.0[3] == b.0[3]])
    }
}

impl X4 {
    fn zip(&self, other: &X4, f: fn(f64, f64) -> f64) -> X4 {
        X4([
            f(self.0[0], other.0[0]),
            f(self.0[1], other.0[1]),
            f(self.0[2], other.0[2]),
            f(self.0[3], other.0[3]),
        ])
    }
}

impl ManType for X4 {
    type TypeMask = M4;
    type Elem = f64;

    fn new(value: &Decimal, _precision: u32) -> Self {
        X4([to_f64(value); 4])
    }

    fn mask(_precision: u32) -> Self {
        X4([0.0, 1.0, 2.0, 3.0])
    }

    fn zero(_precision: u32) -> Self {
        X4([0.0; 4])
    }

    fn check(&self, other: &Self) -> M4 {
        M4([
            self.0[0] < other.0[0],
            self.0[1] < other.0[1],
            self.0[2] < other.0[2],
            self.0[3] < other.0[3],
        ])
    }

    fn len() -> usize {
        4
    }

    fn plus(&self, other: &Self, _precision: u32) -> Self {
        self.zip(other, |a, b| a + b)
    }

    fn minus(&self, other: &Self, _precision: u32) -> Self {
        self.zip(other, |a, b| a - b)
    }

    fn times(&self, other: &Self, _precision: u32) -> Self {
        self.zip(other, |a, b| a * b)
    }
}

struct Engines;

impl EngineSet for Engines {
    type Single = F32;
    type Double = F64;
    type Mpc = Decimal;
    type Simd = X4;
}

fn settings(width: u32, height: u32, cap: u32, engine: RenderEngine) -> RenderSettings {
    RenderSettings::new(
        Decimal::from_i64(-5, 1),
        Decimal::from_i64(0, 0),
        Decimal::from_i64(30, 1),
        width,
        height,
        engine,
        BoundsSettings::new(cap, 25),
    )
}

#[test]
fn the_scalar_backend_of_the_crate() {
    assert_eq!(<Decimal as ManType>::len(), 1);
    let a = <Decimal as ManType>::new(&Decimal::from_i64(125, 2), 1);
    assert_eq!((a.bytes.clone(), a.scale), (vec![12], 1));
    let zero = <Decimal as ManType>::zero(3);
    assert_eq!((zero.bytes.clone(), zero.scale), (vec![0], 3));
    let offsets = <Decimal as ManType>::mask(3);
    assert_eq!((offsets.bytes.clone(), offsets.scale), (vec![0], 3));
    let b = Decimal::from_i64(5, 1);
    let sum = ManType::plus(&a, &b, 2);
    assert_eq!((sum.bytes.clone(), sum.scale), (vec![170, 0], 2));
    let difference = ManType::minus(&b, &a, 2);
    assert_eq!((difference.bytes.clone(), difference.scale), (vec![186], 2));
    let product = ManType::times(&a, &b, 1);
    assert_eq!((product.bytes.clone(), product.scale), (vec![6], 1));
    assert!(ManType::check(&b, &a));
    assert!(!ManType::check(&a, &b));
}

#[test]
fn masks_and_counts_of_one_lane() {
    assert!(ManMask::check(&true));
    assert!(!ManMask::check(&false));
    assert_eq!(<bool as ManMask>::new_count(7), 7);
    assert_eq!(<bool as ManMask>::count_zero(), 0);
    assert_eq!(ManMask::to_count(&true), 1);
    assert_eq!(ManMask::to_count(&false), 0);
    assert!(ManMask::lane(&true, 0));
    assert!(!ManMask::lane(&false, 0));
    assert!(<bool as ManMask>::equal(&3, &3));
    assert!(!<bool as ManMask>::equal(&3, &4));
    assert_eq!(ManCount::lane(&9u32, 0), 9);
    assert_eq!(ManCount::plus(&9u32, &1u32), 10);
}

#[test]
fn scenario_on_double_precision_scalars() {
    let s = settings(100, 1, 100, RenderEngine::Double);
    let image = render::<Engines>(&s).unwrap();
    assert_eq!(image.rows.len(), 1);
    assert_eq!(image.rows[0].len(), 100);
    assert_eq!(image.rows[0][50], Bound::Bounded);
    match image.rows[0][0] {
        Bound::Unbounded(n) => assert!(n <= 5),
        Bound::Bounded => panic!("the left edge lies outside the set"),
    }
}

#[test]
fn the_engine_picks_the_backend() {
    // whatever the engine, `render` gives what the backend behind it gives
    for engine in [
        RenderEngine::Single,
        RenderEngine::Double,
        RenderEngine::MPC,
        RenderEngine::SimdF64x4,
    ] {
        let s = settings(30, 20, 40, engine);
        let image = render::<Engines>(&s).unwrap();
        assert_eq!((image.width, image.height), (30, 20));
        let direct = match engine {
            RenderEngine::Single => render_with_engine::<F32>(&s),
            RenderEngine::Double => render_with_engine::<F64>(&s),
            RenderEngine::MPC => render_with_engine::<Decimal>(&s),
            RenderEngine::SimdF64x4 => render_with_engine::<X4>(&s),
        };
        assert_eq!(image.rows, direct.unwrap().rows);
    }
}

#[test]
fn render_refuses_bad_settings_for_every_engine() {
    for engine in [
        RenderEngine::Single,
        RenderEngine::Double,
        RenderEngine::MPC,
        RenderEngine::SimdF64x4,
    ] {
        let r = render::<Engines>(&settings(0, 4, 10, engine));
        assert_eq!(r.unwrap_err(), RenderError::Config(ConfigError::ZeroWidth));
        let r = render::<Engines>(&settings(4, 0, 10, engine));
        assert_eq!(r.unwrap_err(), RenderError::Config(ConfigError::ZeroHeight));
    }
    let mut s = settings(4, 4, 10, RenderEngine::MPC);
    s.bounds = BoundsSettings::new(10, 0);
    assert_eq!(render::<Engines>(&s).unwrap_err(), RenderError::Config(ConfigError::ZeroPrecision));
}

#[test]
fn backends_agree_on_a_frame() {
    let s = settings(40, 30, 30, RenderEngine::Double);
    let scalar = render_with_engine::<F64>(&s).unwrap();
    let lanes = render_with_engine::<X4>(&s).unwrap();
    let decimal = render_with_engine::<Decimal>(&s).unwrap();
    assert_eq!(scalar.rows, lanes.rows);
    assert_eq!(scalar.rows, decimal.rows);
}

#[test]
fn backends_agree_on_single_points() {
    let b = BoundsSettings::new(200, 40);
    for (re, im) in [(0i64, 0i64), (-100, 0), (30, 0), (50, 0), (-75, 10), (25, 50), (-200, 0), (0, 100), (28, 53)] {
        let x = Decimal::from_i64(re, 2);
        let y = Decimal::from_i64(im, 2);
        let decimal = check_bounded::<Decimal>(&x, &y, b);
        let scalar = check_bounded::<F64>(&F64::new(&x, 40), &F64::new(&y, 40), b);
        let lanes = check_bounded::<X4>(&X4::new(&x, 40), &X4::new(&y, 40), b);
        assert_eq!(decimal.len(), 1);
        assert_eq!(scalar, decimal);
        assert_eq!(lanes, vec![decimal[0]; 4]);
    }
}

#[test]
fn lanes_are_classified_apart() {
    // four points in one group: the origin, a far point, 0.5 and 1
    let xs = X4([0.0, 3.0, 0.5, 1.0]);
    let ys = X4([0.0, 0.0, 0.0, 0.0]);
    let out = check_bounded::<X4>(&xs, &ys, BoundsSettings::new(100, 0));
    assert_eq!(
        out,
        vec![Bound::Bounded, Bound::Unbounded(1), Bound::Unbounded(5), Bound::Unbounded(2)]
    );
}

#[test]
fn a_lane_that_left_stays_out() {
    // lane 0 leaves at step 1 and overflows to infinity long before lane 1,
    // which never leaves, reaches the cap
    let xs = X4([50.0, -1.0, 50.0, 0.0]);
    let ys = X4([0.0; 4]);
    let out = check_bounded::<X4>(&xs, &ys, BoundsSettings::new(1000, 0));
    assert_eq!(
        out,
        vec![Bound::Unbounded(1), Bound::Bounded, Bound::Unbounded(1), Bound::Bounded]
    );
}

#[test]
fn a_group_of_lanes_that_all_left_ends_early() {
    let xs = X4([3.0, 4.0, 5.0, 6.0]);
    let ys = X4([0.0; 4]);
    // the cap is far beyond what could be stepped through in the time given
    let out = check_bounded::<X4>(&xs, &ys, BoundsSettings::new(u32::MAX, 0));
    assert_eq!(out, vec![Bound::Unbounded(1); 4]);
}

#[test]
fn a_width_that_the_lanes_do_not_divide() {
    let s = settings(1601, 1, 12, RenderEngine::SimdF64x4);
    let v = Viewport::new(&s);
    let lanes = render_row::<X4>(&s, &v, 0);
    assert_eq!(lanes.y, 0);
    assert_eq!(lanes.pixels.len(), 1601);
    let scalar = render_row::<F64>(&s, &v, 0);
    assert_eq!(scalar.pixels.len(), 1601);
    assert_eq!(lanes.pixels, scalar.pixels);
    let image = render::<Engines>(&s).unwrap();
    assert_eq!(image.rows.len(), 1);
    assert_eq!(image.rows[0], lanes.pixels);
}

#[test]
fn widths_around_the_lane_count() {
    for width in 1u32..10 {
        let s = settings(width, 2, 20, RenderEngine::SimdF64x4);
        let lanes = render_with_engine::<X4>(&s).unwrap();
        let scalar = render_with_engine::<F64>(&s).unwrap();
        assert_eq!(lanes.rows.len(), 2);
        assert_eq!(lanes.rows[0].len(), width as usize);
        assert_eq!(lanes.rows[1].len(), width as usize);
        assert_eq!(lanes.rows, scalar.rows);
    }
}

#[test]
fn a_cap_of_zero_on_every_backend() {
    for engine in [
        RenderEngine::Single,
        RenderEngine::Double,
        RenderEngine::MPC,
        RenderEngine::SimdF64x4,
    ] {
        let image = render::<Engines>(&settings(7, 3, 0, engine)).unwrap();
        assert_eq!(image.rows, vec![vec![Bound::Bounded; 7]; 3]);
    }
}
