//! Frames: settings, the mapping from pixels to points, the row renderer, the
//! row assembler and the orchestrating `render`.
//!
//! A frame shows the part of the plane that is `scale` wide and centred on
//! `(x, y)`. Pixels are square: one pixel is `scale / width` on a side, the
//! first column lies on the left edge and the first row on the upper edge.
//! All of this is computed in decimals at the working precision.
//!
//! Every row is computed on its own by [`render_row`] and carries its index,
//! so rows can be computed anywhere and handed to the [`Assembler`] in any
//! order; [`render_with_engine`] does so one row after the other.
use crate::complex::check_bounded;
use crate::complex::Bound;
use crate::complex::BoundsSettings;
use crate::decimal::Decimal;
use crate::decimal::DecimalValue;
use crate::types::ManType;
use vstd::prelude::*;

verus! {

/// The numeric backend that a frame asks for.
#[derive(Clone, Copy, Debug, PartialEq, Eq, Structural)]
pub enum RenderEngine {
    /// Single-precision scalars.
    Single,
    /// Double-precision scalars.
    Double,
    /// Arbitrary-precision numbers.
    MPC,
    /// Groups of four double-precision lanes.
    SimdF64x4,
}

/// Why a frame was refused before any work on it began.
#[derive(Clone, Copy, Debug, PartialEq, Eq, Structural)]
pub enum ConfigError {
    /// The frame has no columns.
    ZeroWidth,
    /// The frame has no rows.
    ZeroHeight,
    /// The arbitrary-precision engine was asked to work with no precision.
    ZeroPrecision,
}

/// Why a frame could not be delivered.
#[derive(Clone, Copy, Debug, PartialEq, Eq, Structural)]
pub enum RenderError {
    /// The settings were refused.
    Config(ConfigError),
    /// A row arrived that no sound worker would have sent: its index is out
    /// of range or has been seen before, or it has the wrong length.
    WorkerFailure,
    /// Fewer rows arrived than the frame has.
    ChannelFailure,
}

/// Everything that determines a frame.
#[derive(Debug)]
pub struct RenderSettings {
    /// Real part of the centre.
    pub x: Decimal,
    /// Imaginary part of the centre.
    pub y: Decimal,
    /// Width of the frame in the plane.
    pub scale: Decimal,
    /// Columns.
    pub width: u32,
    /// Rows.
    pub height: u32,
    /// Backend asked for.
    pub engine: RenderEngine,
    /// Iteration cap and precision.
    pub bounds: BoundsSettings,
}

/// The mathematical content of [`RenderSettings`].
pub struct SettingsValue {
    pub x: DecimalValue,
    pub y: DecimalValue,
    pub scale: DecimalValue,
    pub width: nat,
    pub height: nat,
    pub engine: RenderEngine,
    pub limit: nat,
    pub precision: nat,
}

/// The integer `n` as a decimal.
pub open spec fn whole(n: nat) -> DecimalValue {
    DecimalValue { unscaled: n as int, scale: 0 }
}

impl SettingsValue {
    /// The first reason to refuse the settings, if there is one.
    pub open spec fn config_error(self) -> Option<ConfigError> {
        if self.width == 0 {
            Some(ConfigError::ZeroWidth)
        } else if self.height == 0 {
            Some(ConfigError::ZeroHeight)
        } else if self.engine == RenderEngine::MPC && self.precision == 0 {
            Some(ConfigError::ZeroPrecision)
        } else {
            None
        }
    }

    /// Side of a pixel: `scale / width`.
    pub open spec fn step(self) -> DecimalValue {
        self.scale.over_at(self.width as int, self.precision)
    }

    /// Real part of the first column: `x - scale / 2`.
    pub open spec fn x_start(self) -> DecimalValue {
        self.x.minus_at(self.scale.over_at(2, self.precision), self.precision)
    }

    /// Imaginary part of the first row: `y - step * height / 2`.
    pub open spec fn y_start(self) -> DecimalValue {
        self.y.minus_at(
            self.step().times_at(whole(self.height), self.precision).over_at(2, self.precision),
            self.precision,
        )
    }

    /// Real part of a column: `x_start + step * column`.
    pub open spec fn x_at(self, column: nat) -> DecimalValue {
        self.x_start().plus_at(
            self.step().times_at(whole(column), self.precision),
            self.precision,
        )
    }

    /// Imaginary part of a row: `y_start + step * row`.
    pub open spec fn y_at(self, row: nat) -> DecimalValue {
        self.y_start().plus_at(self.step().times_at(whole(row), self.precision), self.precision)
    }

    /// The point of a pixel as the backend `V` holds it. The backend works on
    /// groups of `V::lanes_spec()` neighbouring columns: it is handed the first
    /// column of the group and adds `lane * step` in its own arithmetic.
    pub open spec fn point<V: ManType>(self, column: nat, row: nat) -> (V::Elem, V::Elem) {
        let lane = column % V::lanes_spec();
        let first = (column - lane) as nat;
        (
            V::elem_plus(
                V::elem_new(self.x_at(first), self.precision),
                V::elem_times(
                    V::elem_index(lane, self.precision),
                    V::elem_new(self.step(), self.precision),
                    self.precision,
                ),
                self.precision,
            ),
            V::elem_new(self.y_at(row), self.precision),
        )
    }

    /// The classification of a pixel.
    pub open spec fn pixel<V: ManType>(self, column: nat, row: nat) -> Bound {
        crate::complex::status::<V>(self.point::<V>(column, row), self.precision, self.limit)
    }

    /// One row of the frame.
    pub open spec fn row<V: ManType>(self, row: nat) -> Seq<Bound> {
        Seq::new(self.width, |column: int| self.pixel::<V>(column as nat, row))
    }

    /// The frame.
    pub open spec fn frame<V: ManType>(self) -> Seq<Seq<Bound>> {
        Seq::new(self.height, |row: int| self.row::<V>(row as nat))
    }
}

impl View for RenderSettings {
    type V = SettingsValue;

    open spec fn view(&self) -> SettingsValue {
        SettingsValue {
            x: self.x@,
            y: self.y@,
            scale: self.scale@,
            width: self.width as nat,
            height: self.height as nat,
            engine: self.engine,
            limit: self.bounds.limit as nat,
            precision: self.bounds.precision as nat,
        }
    }
}

impl Clone for RenderSettings {
    fn clone(&self) -> (r: Self)
        ensures
            r@ == self@,
            r.wf() == self.wf(),
    {
        RenderSettings::new(
            self.x.clone(),
            self.y.clone(),
            self.scale.clone(),
            self.width,
            self.height,
            self.engine,
            self.bounds,
        )
    }
}

impl RenderSettings {
    /// The three decimals are well-formed.
    pub open spec fn wf(&self) -> bool {
        &&& self.x.wf()
        &&& self.y.wf()
        &&& self.scale.wf()
    }

    pub fn new(
        x: Decimal,
        y: Decimal,
        scale: Decimal,
        width: u32,
        height: u32,
        engine: RenderEngine,
        bounds: BoundsSettings,
    ) -> (r: RenderSettings)
        ensures
            r.x == x,
            r.y == y,
            r.scale == scale,
            r.width == width,
            r.height == height,
            r.engine == engine,
            r.bounds == bounds,
    {
        RenderSettings { x, y, scale, width, height, engine, bounds }
    }

    /// Whether the settings are well-formed.
    pub fn is_wf(&self) -> (r: bool)
        ensures
            r == self.wf(),
    {
        self.x.is_wf() && self.y.is_wf() && self.scale.is_wf()
    }

    /// Refuses settings that describe no frame.
    pub fn validate(&self) -> (r: Result<(), ConfigError>)
        ensures
            r == match self@.config_error() {
                Some(e) => Err::<(), ConfigError>(e),
                None => Ok(()),
            },
    {
        if self.width == 0 {
            Err(ConfigError::ZeroWidth)
        } else if self.height == 0 {
            Err(ConfigError::ZeroHeight)
        } else if self.bounds.precision == 0 && matches!(self.engine, RenderEngine::MPC) {
            Err(ConfigError::ZeroPrecision)
        } else {
            Ok(())
        }
    }
}

/// Where the frame lies in the plane: the point of the first pixel and the
/// side of a pixel.
#[derive(Debug)]
pub struct Viewport {
    pub x_start: Decimal,
    pub y_start: Decimal,
    pub step: Decimal,
}

impl Viewport {
    /// The viewport is the one of the settings.
    pub open spec fn matches(&self, settings: SettingsValue) -> bool {
        &&& self.x_start.wf()
        &&& self.y_start.wf()
        &&& self.step.wf()
        &&& self.x_start@ == settings.x_start()
        &&& self.y_start@ == settings.y_start()
        &&& self.step@ == settings.step()
    }

    /// Works out the viewport of a frame.
    pub fn new(settings: &RenderSettings) -> (r: Viewport)
        requires
            settings.wf(),
            settings.width > 0,
        ensures
            r.matches(settings@),
    {
        let precision = settings.bounds.precision;
        let step = settings.scale.div_at(settings.width, precision);
        let half_width = settings.scale.div_at(2, precision);
        let x_start = settings.x.sub_at(&half_width, precision);
        let rows = Decimal::from_u32(settings.height);
        let half_height = step.mul_at(&rows, precision).div_at(2, precision);
        let y_start = settings.y.sub_at(&half_height, precision);
        Viewport { x_start, y_start, step }
    }

    /// Real part of a column.
    pub fn x_at(&self, column: u32, precision: u32) -> (r: Decimal)
        requires
            self.x_start.wf(),
            self.step.wf(),
        ensures
            r.wf(),
            r@ == self.x_start@.plus_at(
                self.step@.times_at(whole(column as nat), precision as nat),
                precision as nat,
            ),
    {
        let offset = self.step.mul_at(&Decimal::from_u32(column), precision);
        self.x_start.add_at(&offset, precision)
    }

    /// Imaginary part of a row.
    pub fn y_at(&self, row: u32, precision: u32) -> (r: Decimal)
        requires
            self.y_start.wf(),
            self.step.wf(),
        ensures
            r.wf(),
            r@ == self.y_start@.plus_at(
                self.step@.times_at(whole(row as nat), precision as nat),
                precision as nat,
            ),
    {
        let offset = self.step.mul_at(&Decimal::from_u32(row), precision);
        self.y_start.add_at(&offset, precision)
    }
}

/// One scanline: its index and the classification of each of its pixels.
#[derive(Debug)]
pub struct Row {
    pub y: u32,
    pub pixels: Vec<Bound>,
}

/// Computes one row of a frame with the backend `V`.
///
/// The columns are taken in groups of as many as the backend has lanes. The
/// last group may reach past the right edge; what it computes there is dropped,
/// so the row has exactly `width` pixels.
pub fn render_row<V: ManType>(settings: &RenderSettings, viewport: &Viewport, y: u32) -> (row: Row)
    requires
        viewport.matches(settings@),
        y < settings.height,
    ensures
        row.y == y,
        row.pixels@ == settings@.row::<V>(y as nat),
{
    let precision = settings.bounds.precision;
    let width = settings.width;
    let lanes = V::len();
    let ghost s = settings@;
    let y_point = viewport.y_at(y, precision);
    let ys = V::new(&y_point, precision);
    let offsets = V::mask(precision).times(&V::new(&viewport.step, precision), precision);
    let mut pixels: Vec<Bound> = Vec::new();
    let mut first: u32 = 0;
    let mut done = false;
    while !done && first < width
        invariant
            s == settings@,
            precision == settings.bounds.precision,
            width == settings.width,
            lanes == V::lanes_spec(),
            lanes >= 1,
            viewport.matches(s),
            ys.valid(),
            ys.elems() =~= Seq::new(
                lanes as nat,
                |i: int| V::elem_new(s.y_at(y as nat), precision as nat),
            ),
            offsets.valid(),
            offsets.elems() =~= Seq::new(
                lanes as nat,
                |i: int|
                    V::elem_times(
                        V::elem_index(i as nat, precision as nat),
                        V::elem_new(s.step(), precision as nat),
                        precision as nat,
                    ),
            ),
            first <= width,
            first as int % lanes as int == 0,
            done ==> pixels.len() == width,
            !done ==> pixels.len() == first,
            forall|x: int| 0 <= x < pixels.len() ==> pixels[x] == s.pixel::<V>(x as nat, y as nat),
        decreases
                if done {
                    0
                } else {
                    1 + width - first
                },
    {
        let x_point = viewport.x_at(first, precision);
        let xs = V::new(&x_point, precision).plus(&offsets, precision);
        let group = check_bounded::<V>(&xs, &ys, settings.bounds);
        proof {
            assert forall|i: int| 0 <= i < lanes && first + i < width implies #[trigger] group[i]
                == s.pixel::<V>((first + i) as nat, y as nat) by {
                lemma_lane_of_column(first as int, i, lanes as int);
                assert(xs.elems()[i] == s.point::<V>((first + i) as nat, y as nat).0);
                assert(ys.elems()[i] == s.point::<V>((first + i) as nat, y as nat).1);
            }
        }
        let mut lane: usize = 0;
        while lane < lanes && (lane as u64) < (width - first) as u64
            invariant
                lanes == V::lanes_spec(),
                group.len() == lanes,
                first < width,
                lane <= lanes,
                lane <= width - first,
                pixels.len() == first + lane,
                forall|i: int|
                    0 <= i < lanes && first + i < width ==> #[trigger] group[i] == s.pixel::<V>(
                        (first + i) as nat,
                        y as nat,
                    ),
                forall|x: int|
                    0 <= x < pixels.len() ==> pixels[x] == s.pixel::<V>(x as nat, y as nat),
            decreases lanes - lane,
        {
            pixels.push(group[lane]);
            lane = lane + 1;
        }
        if (lanes as u64) < (width - first) as u64 {
            proof {
                lemma_next_group(first as int, lanes as int);
            }
            first = first + lanes as u32;
        } else {
            done = true;
        }
    }
    proof {
        assert(pixels@ =~= s.row::<V>(y as nat));
    }
    Row { y, pixels }
}

/// The finished frame: for every pixel its classification.
#[derive(Debug)]
pub struct Image {
    pub width: u32,
    pub height: u32,
    /// The rows from the first to the last, each from left to right.
    pub rows: Vec<Vec<Bound>>,
}

impl Image {
    /// The pixels as rows of columns.
    pub open spec fn grid(&self) -> Seq<Seq<Bound>> {
        Seq::new(self.rows@.len(), |y: int| self.rows@[y]@)
    }

    /// There are `height` rows of `width` pixels each.
    pub open spec fn wf(&self) -> bool {
        &&& self.rows@.len() == self.height
        &&& forall|y: int|
            0 <= y < self.rows@.len() ==> (#[trigger] self.rows@[y])@.len() == self.width
    }

    /// The classification of the pixel in column `x` of row `y`.
    pub fn pixel(&self, x: u32, y: u32) -> (r: Bound)
        requires
            self.wf(),
            x < self.width,
            y < self.height,
        ensures
            r == self.grid()[y as int][x as int],
    {
        self.rows[y as usize][x as usize]
    }
}

/// The rows gathered so far for a frame of `height` rows: one slot per row
/// index, empty until the row of that index has arrived.
pub type Slots = Seq<Option<Seq<Bound>>>;

/// No row has arrived yet.
pub open spec fn empty_slots(height: nat) -> Slots {
    Seq::new(height, |y: int| None::<Seq<Bound>>)
}

/// Whether a row can be taken in: its index lies in the frame and has not
/// been seen, and it has as many pixels as the frame has columns.
pub open spec fn fits(slots: Slots, width: nat, y: nat, pixels: Seq<Bound>) -> bool {
    &&& y < slots.len()
    &&& slots[y as int] is None
    &&& pixels.len() == width
}

/// Every row has arrived.
pub open spec fn complete(slots: Slots) -> bool {
    forall|y: int| 0 <= y < slots.len() ==> (#[trigger] slots[y]) is Some
}

/// The frame that complete slots hold.
pub open spec fn finished(slots: Slots) -> Seq<Seq<Bound>> {
    Seq::new(slots.len(), |y: int| slots[y].unwrap())
}

/// The slots after the rows have been handed in one after the other in the
/// order given, or `None` if one of them was refused.
pub open spec fn assemble(width: nat, height: nat, rows: Seq<(nat, Seq<Bound>)>) -> Option<Slots>
    decreases rows.len(),
{
    if rows.len() == 0 {
        Some(empty_slots(height))
    } else {
        match assemble(width, height, rows.drop_last()) {
            None => None,
            Some(slots) => {
                let (y, pixels) = rows.last();
                if fits(slots, width, y, pixels) {
                    Some(slots.update(y as int, Some(pixels)))
                } else {
                    None
                }
            },
        }
    }
}

/// Gathers the rows of a frame, in whatever order they arrive, and hands out
/// the frame once all of them are there.
#[derive(Debug)]
pub struct Assembler {
    pub width: u32,
    pub height: u32,
    /// For every row index the row that arrived, if it has.
    pub slots: Vec<Option<Vec<Bound>>>,
    /// Number of rows taken in.
    pub received: u32,
}

impl View for Assembler {
    type V = Slots;

    open spec fn view(&self) -> Slots {
        Seq::new(
            self.slots@.len(),
            |y: int|
                match self.slots@[y] {
                    Some(pixels) => Some(pixels@),
                    None => None,
                },
        )
    }
}

impl Assembler {
    /// There is one slot per row, every row held has the frame's width, and
    /// the rows held have been counted.
    pub open spec fn wf(&self) -> bool {
        &&& self.slots@.len() == self.height
        &&& self.received == arrived(self@)
        &&& forall|y: int|
            0 <= y < self.slots@.len() ==> match #[trigger] self.slots@[y] {
                Some(pixels) => pixels@.len() == self.width,
                None => true,
            }
    }

    /// An assembler that has seen no row.
    pub fn new(width: u32, height: u32) -> (r: Assembler)
        ensures
            r.wf(),
            r.width == width,
            r.height == height,
            r.received == 0,
            r@ == empty_slots(height as nat),
    {
        let mut slots: Vec<Option<Vec<Bound>>> = Vec::new();
        let mut y: u32 = 0;
        while y < height
            invariant
                y <= height,
                slots@.len() == y,
                forall|j: int| 0 <= j < y ==> (#[trigger] slots@[j]) is None,
            decreases height - y,
        {
            slots.push(None);
            y = y + 1;
        }
        let r = Assembler { width, height, slots, received: 0 };
        proof {
            assert(r@ =~= empty_slots(height as nat));
            lemma_arrived_empty(height as nat);
        }
        r
    }

    /// Number of rows that have yet to arrive; none when the frame is
    /// complete.
    pub fn awaited(&self) -> (n: u32)
        requires
            self.wf(),
        ensures
            n == self.height - arrived(self@),
            n == 0 <==> complete(self@),
    {
        proof {
            lemma_arrived_bounded(self@);
            if self.received == self.height {
                lemma_arrived_all(self@);
            }
            if complete(self@) {
                lemma_arrived_complete(self@);
            }
        }
        self.height - self.received
    }

    /// Takes a row in, or refuses it and stays as it was.
    pub fn accept(&mut self, row: Row) -> (r: Result<(), RenderError>)
        requires
            old(self).wf(),
        ensures
            final(self).wf(),
            final(self).width == old(self).width,
            final(self).height == old(self).height,
            fits(old(self)@, old(self).width as nat, row.y as nat, row.pixels@) ==> {
                &&& r == Ok::<(), RenderError>(())
                &&& final(self)@ == old(self)@.update(row.y as int, Some(row.pixels@))
                &&& final(self).received == old(self).received + 1
            },
            !fits(old(self)@, old(self).width as nat, row.y as nat, row.pixels@) ==> {
                &&& r == Err::<(), RenderError>(RenderError::WorkerFailure)
                &&& final(self)@ == old(self)@
                &&& final(self).received == old(self).received
            },
    {
        if row.y >= self.height || row.pixels.len() != self.width as usize {
            return Err(RenderError::WorkerFailure);
        }
        let y = row.y as usize;
        let seen = self.slots[y].is_some();
        if seen {
            return Err(RenderError::WorkerFailure);
        }
        let ghost before = self@;
        let ghost pixels = row.pixels@;
        self.slots.set(y, Some(row.pixels));
        proof {
            assert(self@ =~= before.update(y as int, Some(pixels)));
            lemma_arrived_update(before, y as int, pixels);
            lemma_arrived_bounded(self@);
        }
        self.received = self.received + 1;
        Ok(())
    }

    /// The frame, if every row has arrived.
    pub fn finish(&self) -> (r: Result<Image, RenderError>)
        requires
            self.wf(),
        ensures
            complete(self@) ==> r is Ok && r->Ok_0.wf() && r->Ok_0.width == self.width
                && r->Ok_0.height == self.height && r->Ok_0.grid() == finished(self@),
            !complete(self@) ==> r == Err::<Image, RenderError>(RenderError::ChannelFailure),
    {
        let mut rows: Vec<Vec<Bound>> = Vec::new();
        let mut y: usize = 0;
        while y < self.slots.len()
            invariant
                self.wf(),
                y <= self.slots@.len(),
                rows@.len() == y,
                forall|j: int| 0 <= j < y ==> (#[trigger] self@[j]) is Some,
                forall|j: int| 0 <= j < y ==> (#[trigger] rows@[j])@ == self@[j].unwrap(),
            decreases self.slots@.len() - y,
        {
            match &self.slots[y] {
                Some(pixels) => {
                    let copy = copy_pixels(pixels);
                    rows.push(copy);
                },
                None => {
                    assert(self@[y as int] is None);
                    return Err(RenderError::ChannelFailure);
                },
            }
            y = y + 1;
        }
        let image = Image { width: self.width, height: self.height, rows };
        proof {
            assert forall|j: int| 0 <= j < image.rows@.len() implies (
            #[trigger] image.rows@[j])@.len() == image.width by {
                assert(self@[j] is Some);
            }
            assert(image.grid() =~= finished(self@));
        }
        Ok(image)
    }
}

/// A copy of the pixels.
fn copy_pixels(pixels: &Vec<Bound>) -> (r: Vec<Bound>)
    ensures
        r@ == pixels@,
{
    let mut r: Vec<Bound> = Vec::new();
    let mut i: usize = 0;
    while i < pixels.len()
        invariant
            i <= pixels@.len(),
            r@ == pixels@.take(i as int),
        decreases pixels@.len() - i,
    {
        r.push(pixels[i]);
        assert(r@ =~= pixels@.take(i + 1));
        i = i + 1;
    }
    assert(pixels@.take(pixels@.len() as int) =~= pixels@);
    r
}

/// Renders a frame with the backend `V`: checks the settings, computes the
/// rows one after the other and assembles them.
pub fn render_with_engine<V: ManType>(settings: &RenderSettings) -> (r: Result<Image, RenderError>)
    requires
        settings.wf(),
    ensures
        match settings@.config_error() {
            Some(e) => r == Err::<Image, RenderError>(RenderError::Config(e)),
            None => {
                &&& r is Ok
                &&& r->Ok_0.wf()
                &&& r->Ok_0.width == settings.width
                &&& r->Ok_0.height == settings.height
                &&& r->Ok_0.grid() == settings@.frame::<V>()
            },
        },
{
    match settings.validate() {
        Err(e) => {
            return Err(RenderError::Config(e));
        },
        Ok(_) => {},
    }
    let viewport = Viewport::new(settings);
    let mut assembler = Assembler::new(settings.width, settings.height);
    let ghost s = settings@;
    let mut y: u32 = 0;
    while y < settings.height
        invariant
            s == settings@,
            y <= settings.height,
            viewport.matches(s),
            assembler.wf(),
            assembler.width == settings.width,
            assembler.height == settings.height,
            assembler@.len() == settings.height,
            forall|j: int| 0 <= j < y ==> #[trigger] assembler@[j] == Some(s.row::<V>(j as nat)),
            forall|j: int| y <= j < settings.height ==> (#[trigger] assembler@[j]) is None,
        decreases settings.height - y,
    {
        let row = render_row::<V>(settings, &viewport, y);
        assert(assembler@[y as int] is None);
        match assembler.accept(row) {
            Ok(_) => {},
            Err(e) => {
                return Err(e);
            },
        }
        y = y + 1;
    }
    let r = assembler.finish();
    proof {
        assert forall|j: int| 0 <= j < assembler@.len() implies (
        #[trigger] assembler@[j]) is Some by {
            assert(assembler@[j] == Some(s.row::<V>(j as nat)));
        }
        assert(finished(assembler@) =~= s.frame::<V>());
    }
    r
}

/// The backends that stand behind the four engines.
pub trait EngineSet {
    type Single: ManType;

    type Double: ManType;

    type Mpc: ManType;

    type Simd: ManType;
}

/// Renders a frame with the backend that its settings ask for. The backend is
/// picked once, here; nothing below looks at the engine again.
pub fn render<E: EngineSet>(settings: &RenderSettings) -> (r: Result<Image, RenderError>)
    requires
        settings.wf(),
    ensures
        match settings@.config_error() {
            Some(e) => r == Err::<Image, RenderError>(RenderError::Config(e)),
            None => {
                &&& r is Ok
                &&& r->Ok_0.wf()
                &&& r->Ok_0.width == settings.width
                &&& r->Ok_0.height == settings.height
                &&& r->Ok_0.grid() == match settings.engine {
                    RenderEngine::Single => settings@.frame::<E::Single>(),
                    RenderEngine::Double => settings@.frame::<E::Double>(),
                    RenderEngine::MPC => settings@.frame::<E::Mpc>(),
                    RenderEngine::SimdF64x4 => settings@.frame::<E::Simd>(),
                }
            },
        },
{
    match settings.engine {
        RenderEngine::Single => render_with_engine::<E::Single>(settings),
        RenderEngine::Double => render_with_engine::<E::Double>(settings),
        RenderEngine::MPC => render_with_engine::<E::Mpc>(settings),
        RenderEngine::SimdF64x4 => render_with_engine::<E::Simd>(settings),
    }
}

/// Number of rows that have arrived.
pub open spec fn arrived(slots: Slots) -> nat
    decreases slots.len(),
{
    if slots.len() == 0 {
        0
    } else {
        arrived(slots.drop_last()) + if slots.last() is Some {
            1nat
        } else {
            0nat
        }
    }
}

/// No more rows have arrived than there are slots.
pub proof fn lemma_arrived_bounded(slots: Slots)
    ensures
        arrived(slots) <= slots.len(),
    decreases slots.len(),
{
    if slots.len() > 0 {
        lemma_arrived_bounded(slots.drop_last());
    }
}

/// Before the first row none has arrived.
pub proof fn lemma_arrived_empty(height: nat)
    ensures
        arrived(empty_slots(height)) == 0,
    decreases height,
{
    if height > 0 {
        assert(empty_slots(height).drop_last() =~= empty_slots((height - 1) as nat));
        lemma_arrived_empty((height - 1) as nat);
    }
}

/// Filling an empty slot is the arrival of one row.
pub proof fn lemma_arrived_update(slots: Slots, y: int, pixels: Seq<Bound>)
    requires
        0 <= y < slots.len(),
        slots[y] is None,
    ensures
        arrived(slots.update(y, Some(pixels))) == arrived(slots) + 1,
    decreases slots.len(),
{
    let after = slots.update(y, Some(pixels));
    if y == slots.len() - 1 {
        assert(after.drop_last() =~= slots.drop_last());
    } else {
        assert(after.drop_last() =~= slots.drop_last().update(y, Some(pixels)));
        lemma_arrived_update(slots.drop_last(), y, pixels);
    }
}

/// When as many rows have arrived as there are slots, none is missing.
pub proof fn lemma_arrived_all(slots: Slots)
    requires
        arrived(slots) == slots.len(),
    ensures
        complete(slots),
    decreases slots.len(),
{
    if slots.len() > 0 {
        lemma_arrived_bounded(slots.drop_last());
        lemma_arrived_all(slots.drop_last());
        assert forall|y: int| 0 <= y < slots.len() implies (#[trigger] slots[y]) is Some by {
            if y < slots.len() - 1 {
                assert(slots.drop_last()[y] is Some);
            }
        }
    }
}

/// When no row is missing, as many have arrived as there are slots.
pub proof fn lemma_arrived_complete(slots: Slots)
    requires
        complete(slots),
    ensures
        arrived(slots) == slots.len(),
    decreases slots.len(),
{
    if slots.len() > 0 {
        assert forall|y: int| 0 <= y < slots.drop_last().len() implies (
        #[trigger] slots.drop_last()[y]) is Some by {
            assert(slots[y] is Some);
        }
        lemma_arrived_complete(slots.drop_last());
        assert(slots[slots.len() - 1] is Some);
    }
}

/// Whether one of the rows has the index `y`.
pub open spec fn names_row(rows: Seq<(nat, Seq<Bound>)>, y: int) -> bool {
    exists|i: int| 0 <= i < rows.len() && (#[trigger] rows[i]).0 == y
}

/// What slots that were assembled from rows hold: every row lies in the frame,
/// has the frame's width and sits in the slot of its index; no index came
/// twice; and every slot that is filled was filled by one of the rows.
pub proof fn lemma_assembled_rows(width: nat, height: nat, rows: Seq<(nat, Seq<Bound>)>)
    requires
        assemble(width, height, rows) is Some,
    ensures
        assemble(width, height, rows).unwrap().len() == height,
        arrived(assemble(width, height, rows).unwrap()) == rows.len(),
        forall|i: int|
            0 <= i < rows.len() ==> {
                &&& (#[trigger] rows[i]).0 < height
                &&& rows[i].1.len() == width
                &&& assemble(width, height, rows).unwrap()[rows[i].0 as int] == Some(rows[i].1)
            },
        forall|i: int, j: int|
            0 <= i < j < rows.len() ==> (#[trigger] rows[i]).0 != (#[trigger] rows[j]).0,
        forall|y: int|
            0 <= y < height && (#[trigger] assemble(width, height, rows).unwrap()[y]) is Some
                ==> names_row(rows, y),
    decreases rows.len(),
{
    let slots = assemble(width, height, rows).unwrap();
    if rows.len() == 0 {
        lemma_arrived_empty(height);
    } else {
        let earlier = rows.drop_last();
        let before = assemble(width, height, earlier).unwrap();
        let last = rows.len() - 1;
        let (y, pixels) = rows.last();
        lemma_assembled_rows(width, height, earlier);
        lemma_arrived_update(before, y as int, pixels);
        assert forall|i: int| 0 <= i < rows.len() implies {
            &&& (#[trigger] rows[i]).0 < height
            &&& rows[i].1.len() == width
            &&& slots[rows[i].0 as int] == Some(rows[i].1)
        } by {
            if i < last {
                assert(rows[i] == earlier[i]);
            }
        }
        assert forall|i: int, j: int| 0 <= i < j < rows.len() implies (#[trigger] rows[i]).0 != (
        #[trigger] rows[j]).0 by {
            assert(rows[i] == earlier[i]);
            if j < last {
                assert(rows[j] == earlier[j]);
            }
        }
        assert forall|z: int| 0 <= z < height && (#[trigger] slots[z]) is Some implies names_row(
            rows,
            z,
        ) by {
            if z == y {
                assert(rows[last].0 == z);
            } else {
                assert(before[z] is Some);
                let i = choose|i: int| 0 <= i < earlier.len() && (#[trigger] earlier[i]).0 == z;
                assert(rows[i] == earlier[i]);
            }
        }
    }
}

/// Row completeness: when the assembled slots are complete, exactly as many
/// rows were handed in as the frame has, and every row index of the frame
/// came once and only once.
pub proof fn lemma_complete_means_each_row_once(
    width: nat,
    height: nat,
    rows: Seq<(nat, Seq<Bound>)>,
)
    requires
        assemble(width, height, rows) is Some,
        complete(assemble(width, height, rows).unwrap()),
    ensures
        rows.len() == height,
        forall|y: int| 0 <= y < height ==> #[trigger] names_row(rows, y),
        forall|i: int, j: int|
            0 <= i < j < rows.len() ==> (#[trigger] rows[i]).0 != (#[trigger] rows[j]).0,
{
    let slots = assemble(width, height, rows).unwrap();
    lemma_assembled_rows(width, height, rows);
    lemma_arrived_complete(slots);
    assert forall|y: int| 0 <= y < height implies #[trigger] names_row(rows, y) by {
        assert(slots[y] is Some);
    }
}

/// Whether `order` names every row index below `height` once.
pub open spec fn is_arrival_order(order: Seq<nat>, height: nat) -> bool {
    &&& order.len() == height
    &&& forall|i: int| 0 <= i < order.len() ==> (#[trigger] order[i]) < height
    &&& forall|i: int, j: int|
        0 <= i < j < order.len() ==> (#[trigger] order[i]) != (#[trigger] order[j])
}

/// The rows of `grid` in the order in which `order` names them.
pub open spec fn rows_in_order(grid: Seq<Seq<Bound>>, order: Seq<nat>) -> Seq<(nat, Seq<Bound>)> {
    Seq::new(order.len(), |i: int| (order[i], grid[order[i] as int]))
}

proof fn lemma_assemble_prefix(
    width: nat,
    height: nat,
    grid: Seq<Seq<Bound>>,
    order: Seq<nat>,
    k: nat,
)
    requires
        is_arrival_order(order, height),
        grid.len() == height,
        forall|y: int| 0 <= y < height ==> (#[trigger] grid[y]).len() == width,
        k <= height,
    ensures
        assemble(width, height, rows_in_order(grid, order).take(k as int)) is Some,
    decreases k,
{
    let rows = rows_in_order(grid, order);
    if k > 0 {
        let earlier = rows.take(k as int).drop_last();
        assert(earlier =~= rows.take(k - 1));
        lemma_assemble_prefix(width, height, grid, order, (k - 1) as nat);
        lemma_assembled_rows(width, height, earlier);
        let before = assemble(width, height, earlier).unwrap();
        let (y, pixels) = rows.take(k as int).last();
        assert(y == order[k - 1]);
        assert(pixels == grid[y as int]);
        if before[y as int] is Some {
            let i = choose|i: int| 0 <= i < earlier.len() && (#[trigger] earlier[i]).0 == y;
            assert(earlier[i].0 == order[i]);
            assert(false);
        }
    }
}

/// Arrival order does not matter: handed in in any order that names every
/// row once, the rows of a frame are all taken in, and what comes out is
/// that frame.
pub proof fn lemma_assemble_any_order(
    width: nat,
    height: nat,
    grid: Seq<Seq<Bound>>,
    order: Seq<nat>,
)
    requires
        is_arrival_order(order, height),
        grid.len() == height,
        forall|y: int| 0 <= y < height ==> (#[trigger] grid[y]).len() == width,
    ensures
        assemble(width, height, rows_in_order(grid, order)) is Some,
        complete(assemble(width, height, rows_in_order(grid, order)).unwrap()),
        finished(assemble(width, height, rows_in_order(grid, order)).unwrap()) == grid,
{
    let rows = rows_in_order(grid, order);
    assert(rows.take(height as int) =~= rows);
    lemma_assemble_prefix(width, height, grid, order, height);
    lemma_assembled_rows(width, height, rows);
    let slots = assemble(width, height, rows).unwrap();
    lemma_arrived_all(slots);
    assert forall|y: int| 0 <= y < height implies (#[trigger] slots[y]).unwrap() == grid[y] by {
        assert(slots[y] is Some);
        let i = choose|i: int| 0 <= i < rows.len() && (#[trigger] rows[i]).0 == y;
        assert(slots[rows[i].0 as int] == Some(rows[i].1));
    }
    assert(finished(slots) =~= grid);
}

/// Determinism: whatever the order in which the rows of a frame are
/// computed and arrive, assembling them gives the frame that
/// [`render_with_engine`] returns for the same settings.
pub proof fn lemma_frame_from_any_order<V: ManType>(settings: SettingsValue, order: Seq<nat>)
    requires
        is_arrival_order(order, settings.height),
    ensures
        assemble(
            settings.width,
            settings.height,
            rows_in_order(settings.frame::<V>(), order),
        ) is Some,
        finished(
            assemble(
                settings.width,
                settings.height,
                rows_in_order(settings.frame::<V>(), order),
            ).unwrap(),
        ) == settings.frame::<V>(),
{
    lemma_assemble_any_order(settings.width, settings.height, settings.frame::<V>(), order);
}

/// The points of the columns and rows lie one step apart: in units of
/// `10^(-precision)`, column `n` lies at `x_start + n * step` and row `n` at
/// `y_start + n * step`, with nothing lost to rounding.
pub proof fn lemma_points_are_evenly_spaced(settings: SettingsValue, n: nat)
    ensures
        settings.x_at(n) == (DecimalValue {
            unscaled: settings.x_start().unscaled + settings.step().unscaled * n,
            scale: settings.precision as int,
        }),
        settings.y_at(n) == (DecimalValue {
            unscaled: settings.y_start().unscaled + settings.step().unscaled * n,
            scale: settings.precision as int,
        }),
{
    let step = settings.step();
    crate::decimal::lemma_rescaled_same(step.times(whole(n)));
    crate::decimal::lemma_rescaled_same(settings.x_start());
    crate::decimal::lemma_rescaled_same(settings.y_start());
    crate::decimal::lemma_rescaled_same(step.times_at(whole(n), settings.precision));
}

/// With the decimal backend the point of a pixel is the point of its column
/// and row: a group is one column, and adding the lane offset, which is
/// zero, changes nothing.
pub proof fn lemma_decimal_point(settings: SettingsValue, column: nat, row: nat)
    ensures
        settings.point::<Decimal>(column, row) == (settings.x_at(column), settings.y_at(row)),
{
    let p = settings.precision;
    let zero = DecimalValue { unscaled: 0, scale: p as int };
    let x = settings.x_at(column);
    let y = settings.y_at(row);
    assert(column % 1 == 0);
    crate::decimal::lemma_rescaled_same(x);
    crate::decimal::lemma_rescaled_same(y);
    crate::decimal::lemma_rescaled_zero(DecimalValue { unscaled: 0, scale: 0 }, p as int);
    let step = settings.step().rescaled(p as int);
    assert(zero.times(step).unscaled == 0) by (nonlinear_arith)
        requires
            zero.times(step).unscaled == zero.unscaled * step.unscaled,
            zero.unscaled == 0,
    ;
    crate::decimal::lemma_rescaled_zero(zero.times(step), p as int);
    crate::decimal::lemma_rescaled_same(zero);
    assert(zero.times_at(step, p) == zero);
    assert(x.plus_at(zero, p) == x);
}

/// With an iteration cap of zero every pixel of the frame is `Bounded`.
pub proof fn lemma_zero_cap_frame<V: ManType>(settings: SettingsValue, column: nat, row: nat)
    requires
        settings.limit == 0,
        column < settings.width,
        row < settings.height,
    ensures
        settings.frame::<V>()[row as int][column as int] == Bound::Bounded,
{
}

/// Whatever the number of lanes, a row has one pixel for every column of the
/// frame and none beyond the last.
pub proof fn lemma_row_has_width<V: ManType>(settings: SettingsValue, row: nat)
    ensures
        settings.row::<V>(row).len() == settings.width,
{
}

/// A column that lies `lane` places after the first column of its group has
/// that lane and that first column.
proof fn lemma_lane_of_column(first: int, lane: int, lanes: int)
    requires
        0 <= first,
        0 < lanes,
        0 <= lane < lanes,
        first % lanes == 0,
    ensures
        (first + lane) % lanes == lane,
        (first + lane) - (first + lane) % lanes == first,
{
    vstd::arithmetic::div_mod::lemma_fundamental_div_mod(first, lanes);
    assert(first + lane == (first / lanes) * lanes + lane) by (nonlinear_arith)
        requires
            first == lanes * (first / lanes) + first % lanes,
            first % lanes == 0,
    ;
    vstd::arithmetic::div_mod::lemma_fundamental_div_mod_converse(
        first + lane,
        lanes,
        first / lanes,
        lane,
    );
}

/// The column after a full group starts a group.
proof fn lemma_next_group(first: int, lanes: int)
    requires
        0 <= first,
        0 < lanes,
        first % lanes == 0,
    ensures
        (first + lanes) % lanes == 0,
{
    vstd::arithmetic::div_mod::lemma_fundamental_div_mod(first, lanes);
    assert(first + lanes == (first / lanes + 1) * lanes + 0) by (nonlinear_arith)
        requires
            first == lanes * (first / lanes) + first % lanes,
            first % lanes == 0,
    ;
    vstd::arithmetic::div_mod::lemma_fundamental_div_mod_converse(
        first + lanes,
        lanes,
        first / lanes + 1,
        0,
    );
}

} // verus!

