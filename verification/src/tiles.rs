//! The queue of tiles: which tile is rendered next, how many may be
//! rendered at the same time, and where a rendered tile is written.
//!
//! Workers take tiles with `start` and hand them back with `finish`. Every
//! tile is handed out once and written once, whatever the limit on the
//! number of tiles in work is.
use vstd::prelude::*;
use crate::camera::{
    in_tile, is_tile_layout, lemma_layout_covers, lemma_layout_distinct, lemma_layout_in_tile,
    lemma_pixel_has_one_tile, spec_chunk, spec_extent, spec_tile_edge, Admission, Camera, Decision,
    HEIGHT_PARTITION, WIDTH_PARTITION,
};
use crate::color::{spec_bytes_of, write_color, Image};
use crate::hittable::Hittable;
use crate::vec3::Vec3;

verus! {

/// The number of tiles of an image.
pub const TILE_COUNT: usize = 400;

/// The tile has not been handed out.
pub const WAITING: u8 = 0;

/// The tile is with a worker.
pub const RENDERING: u8 = 1;

/// The tile has been written into the image.
pub const WRITTEN: u8 = 2;

/// A tile that was handed back wrongly: it was not in work, or its pixels
/// are not the pixels of the tile, row by row.
#[derive(Clone, Copy, Debug, PartialEq, Eq, Structural)]
pub struct TileFault {
    /// The column of the tile.
    pub i: usize,
    /// The row of the tile.
    pub j: usize,
}

/// The image that is being rendered, and what each of its tiles is doing.
#[derive(Debug, PartialEq)]
pub struct TileQueue {
    /// How many tiles are in work, and how many may be.
    pub gate: Admission,
    /// What each tile is doing, row by row: `WAITING`, `RENDERING` or
    /// `WRITTEN`.
    pub state: Vec<u8>,
    /// The tiles before this one have been handed out.
    pub next: usize,
    /// The image.
    pub image: Image,
}

/// The place of tile `(i, j)` in the queue.
pub open spec fn spec_tile_index(i: usize, j: usize) -> int {
    j * WIDTH_PARTITION + i
}

/// The number of tiles that are in work.
pub open spec fn spec_in_work(state: Seq<u8>) -> nat
    decreases state.len(),
{
    if state.len() == 0 {
        0
    } else if state.last() == RENDERING {
        spec_in_work(state.drop_last()) + 1
    } else {
        spec_in_work(state.drop_last())
    }
}

/// Changing what one tile is doing changes the number of tiles in work by
/// that tile alone.
pub proof fn lemma_in_work_update(state: Seq<u8>, t: int, v: u8)
    requires
        0 <= t < state.len(),
    ensures
        spec_in_work(state.update(t, v)) + (if state[t] == RENDERING {
            1nat
        } else {
            0nat
        }) == spec_in_work(state) + (if v == RENDERING {
            1nat
        } else {
            0nat
        }),
    decreases state.len(),
{
    let after = state.update(t, v);
    if t == state.len() - 1 {
        assert(after.drop_last() =~= state.drop_last());
    } else {
        assert(after.drop_last() =~= state.drop_last().update(t, v));
        lemma_in_work_update(state.drop_last(), t, v);
    }
}

/// Where no tile is in work, none is `RENDERING`.
pub proof fn lemma_none_in_work(state: Seq<u8>, t: int)
    requires
        0 <= t < state.len(),
        spec_in_work(state) == 0,
    ensures
        state[t] != RENDERING,
    decreases state.len(),
{
    if t < state.len() - 1 {
        lemma_none_in_work(state.drop_last(), t);
    }
}

/// Whether `buff` holds the pixels of the columns `x_min..x_max` and the
/// rows `y_min..y_max` exactly once each, row by row.
pub fn check_layout(buff: &Vec<(usize, usize, Vec3)>, x_min: usize, x_max: usize, y_min: usize, y_max: usize) -> (ok:
    bool)
    ensures
        ok == is_tile_layout(buff@, x_min, x_max, y_min, y_max),
{
    let w: usize = if x_min < x_max {
        x_max - x_min
    } else {
        0
    };
    let h: usize = if y_min < y_max {
        y_max - y_min
    } else {
        0
    };
    assert(w * h <= 0xffff_ffff_ffff_ffff * 0xffff_ffff_ffff_ffff) by (nonlinear_arith)
        requires
            0 <= w <= 0xffff_ffff_ffff_ffff,
            0 <= h <= 0xffff_ffff_ffff_ffff,
    ;
    let size: u128 = (w as u128) * (h as u128);
    if buff.len() as u128 != size {
        return false;
    }
    let mut k: usize = 0;
    while k < buff.len()
        invariant
            k <= buff@.len(),
            buff@.len() == w * h,
            w == spec_extent(x_min, x_max),
            h == spec_extent(y_min, y_max),
            forall|m: int| 0 <= m < k ==> (#[trigger] buff@[m]).0 == x_min + m % (w as int) && buff@[m].1 == y_min + m / (
            w as int),
        decreases buff@.len() - k,
    {
        proof {
            assert(w > 0 && h > 0) by (nonlinear_arith)
                requires
                    0 <= k < w * h,
                    w >= 0,
                    h >= 0,
            ;
            vstd::arithmetic::div_mod::lemma_fundamental_div_mod(k as int, w as int);
            let row = (k as int) / (w as int);
            let column = (k as int) % (w as int);
            assert(0 <= row < h) by (nonlinear_arith)
                requires
                    k == w * row + column,
                    0 <= column < w,
                    0 <= k < w * h,
                    w > 0,
            ;
        }
        let entry = buff[k];
        if entry.0 != x_min + k % w || entry.1 != y_min + k / w {
            return false;
        }
        k += 1;
    }
    true
}

impl TileQueue {
    /// Whether the queue is in order: no more tiles are in work than the
    /// gate counts and allows, the tiles that were handed out are in work
    /// or written, and the others wait.
    pub open spec fn wf(&self) -> bool {
        &&& self.gate.wf()
        &&& self.image.wf()
        &&& self.state@.len() == TILE_COUNT
        &&& self.next <= TILE_COUNT
        &&& self.gate.outstanding == spec_in_work(self.state@)
        &&& forall|t: int| self.next <= t < TILE_COUNT ==> #[trigger] self.state@[t] == WAITING
        &&& forall|t: int| 0 <= t < self.next ==> #[trigger] self.state@[t] == RENDERING || self.state@[t] == WRITTEN
    }

    /// Tests `wf`.
    pub fn is_well_formed(&self) -> (ok: bool)
        ensures
            ok == self.wf(),
    {
        if self.gate.outstanding > self.gate.limit || self.state.len() != TILE_COUNT || self.next > TILE_COUNT {
            return false;
        }
        let bytes: usize = self.image.data.len();
        if !Image::fits(self.image.width, self.image.height) {
            return false;
        }
        assert(self.image.width * self.image.height <= 3 * self.image.width * self.image.height) by (nonlinear_arith);
        assert(3 * (self.image.width * self.image.height) == 3 * self.image.width * self.image.height)
            by (nonlinear_arith);
        if bytes != 3 * (self.image.width * self.image.height) {
            return false;
        }
        let mut in_work: usize = 0;
        let mut t: usize = 0;
        while t < TILE_COUNT
            invariant
                t <= TILE_COUNT,
                self.state@.len() == TILE_COUNT,
                self.next <= TILE_COUNT,
                in_work == spec_in_work(self.state@.subrange(0, t as int)),
                in_work <= t,
                forall|m: int| self.next <= m < t ==> #[trigger] self.state@[m] == WAITING,
                forall|m: int| 0 <= m < t && m < self.next ==> #[trigger] self.state@[m] == RENDERING || self.state@[m]
                    == WRITTEN,
            decreases TILE_COUNT - t,
        {
            let s: u8 = self.state[t];
            if t >= self.next {
                if s != WAITING {
                    return false;
                }
            } else if s != RENDERING && s != WRITTEN {
                return false;
            }
            proof {
                let upto = self.state@.subrange(0, t + 1);
                assert(upto.drop_last() =~= self.state@.subrange(0, t as int));
                assert(upto.last() == s);
            }
            if s == RENDERING {
                in_work += 1;
            }
            t += 1;
        }
        assert(self.state@.subrange(0, TILE_COUNT as int) =~= self.state@);
        in_work == self.gate.outstanding
    }

    /// Whether every tile has been written.
    pub open spec fn all_written(&self) -> bool {
        forall|t: int| 0 <= t < TILE_COUNT ==> #[trigger] self.state@[t] == WRITTEN
    }

    /// Whether every pixel of the tiles that have been written shows a
    /// colour that it can have in `world` through `cam`.
    pub open spec fn pictures(&self, cam: &Camera, world: &Hittable) -> bool {
        forall|x: usize, y: usize, i: usize, j: usize|
            #[trigger] in_tile(cam.width, cam.height, i, j, x, y) && self.state@[spec_tile_index(i, j)] == WRITTEN
                ==> cam.shows(world, &self.image, x, y)
    }

    /// A queue for the image `image` in which no tile has been handed out,
    /// for at most `limit` tiles in work at a time.
    pub fn new(image: Image, limit: usize) -> (q: TileQueue)
        requires
            image.wf(),
        ensures
            q.wf(),
            q.next == 0,
            q.gate.outstanding == 0,
            q.gate.limit == limit,
            q.image == image,
            forall|t: int| 0 <= t < TILE_COUNT ==> #[trigger] q.state@[t] == WAITING,
    {
        let mut state: Vec<u8> = Vec::new();
        let mut t: usize = 0;
        while t < TILE_COUNT
            invariant
                t <= TILE_COUNT,
                state@.len() == t,
                spec_in_work(state@) == 0,
                forall|m: int| 0 <= m < t ==> #[trigger] state@[m] == WAITING,
            decreases TILE_COUNT - t,
        {
            let ghost before = state@;
            state.push(WAITING);
            assert(state@.drop_last() =~= before);
            t += 1;
        }
        TileQueue { gate: Admission::new(limit), state, next: 0, image }
    }

    /// Hands out the next tile, if a tile is left and fewer tiles are in
    /// work than the limit allows; the tile is then in work. Otherwise
    /// nothing changes.
    pub fn start(&mut self) -> (tile: Option<(usize, usize)>)
        requires
            old(self).wf(),
        ensures
            final(self).wf(),
            final(self).image == old(self).image,
            final(self).gate.limit == old(self).gate.limit,
            tile is Some <==> old(self).gate.outstanding < old(self).gate.limit && old(self).next < TILE_COUNT,
            tile matches Some((i, j)) ==> {
                &&& i == old(self).next % WIDTH_PARTITION
                &&& j == old(self).next / WIDTH_PARTITION
                &&& i < WIDTH_PARTITION
                &&& j < HEIGHT_PARTITION
                &&& spec_tile_index(i, j) == old(self).next
                &&& final(self).next == old(self).next + 1
                &&& final(self).gate.outstanding == old(self).gate.outstanding + 1
                &&& final(self).state@ == old(self).state@.update(old(self).next as int, RENDERING)
            },
            tile is None ==> *final(self) == *old(self),
    {
        if self.next >= TILE_COUNT {
            return None;
        }
        match self.gate.request() {
            Decision::Wait => None,
            Decision::Spawn => {
                let t: usize = self.next;
                proof {
                    lemma_in_work_update(self.state@, t as int, RENDERING);
                }
                self.state.set(t, RENDERING);
                self.next = t + 1;
                Some((t % WIDTH_PARTITION, t / WIDTH_PARTITION))
            },
        }
    }

    /// Whether `finish` takes the tile `(i, j)` with the pixels `buff`: the
    /// camera has the size of the image, the tile is in work, and `buff`
    /// holds the pixels of the tile, row by row.
    pub open spec fn accepts(&self, cam: &Camera, i: usize, j: usize, buff: Seq<(usize, usize, Vec3)>) -> bool {
        &&& cam.width == self.image.width
        &&& cam.height == self.image.height
        &&& i < WIDTH_PARTITION
        &&& j < HEIGHT_PARTITION
        &&& self.state@[spec_tile_index(i, j)] == RENDERING
        &&& is_tile_layout(
            buff,
            cam.spec_tile_bounds(i, j).0,
            cam.spec_tile_bounds(i, j).1,
            cam.spec_tile_bounds(i, j).2,
            cam.spec_tile_bounds(i, j).3,
        )
    }

    /// Whether `after` is `self` with the tile `(i, j)` written: the tile
    /// is no longer in work, every pixel of `buff` has the bytes of its
    /// colour, and no pixel outside the tile has changed.
    pub open spec fn wrote_tile(&self, after: &TileQueue, cam: &Camera, i: usize, j: usize, buff: Seq<(usize, usize, Vec3)>) -> bool {
        &&& after.state@ == self.state@.update(spec_tile_index(i, j), WRITTEN)
        &&& after.next == self.next
        &&& after.gate.limit == self.gate.limit
        &&& after.gate.outstanding == self.gate.outstanding - 1
        &&& after.image.width == self.image.width
        &&& after.image.height == self.image.height
        &&& forall|k: int|
            0 <= k < buff.len() ==> after.image.spec_pixel((#[trigger] buff[k]).0, buff[k].1) == spec_bytes_of(buff[k].2)
        &&& forall|x: usize, y: usize|
            x < cam.width && y < cam.height && !in_tile(cam.width, cam.height, i, j, x, y)
                ==> #[trigger] after.image.spec_pixel(x, y) == self.image.spec_pixel(x, y)
    }

    /// Takes back the tile `(i, j)` with its pixels `buff` and writes them
    /// into the image, which makes room for another tile. A tile that is
    /// not in work, or whose pixels are not those of the tile, is refused
    /// and changes nothing.
    pub fn finish(&mut self, cam: &Camera, i: usize, j: usize, buff: &Vec<(usize, usize, Vec3)>) -> (r: Result<
        (),
        TileFault,
    >)
        requires
            old(self).wf(),
        ensures
            final(self).wf(),
            r is Ok <==> old(self).accepts(cam, i, j, buff@),
            r is Ok ==> old(self).wrote_tile(final(self), cam, i, j, buff@),
            r matches Err(e) ==> e == (TileFault { i, j }) && *final(self) == *old(self),
    {
        if cam.width != self.image.width || cam.height != self.image.height || i >= WIDTH_PARTITION || j
            >= HEIGHT_PARTITION {
            return Err(TileFault { i, j });
        }
        let t: usize = j * WIDTH_PARTITION + i;
        if self.state[t] != RENDERING {
            return Err(TileFault { i, j });
        }
        let (x_min, x_max, y_min, y_max) = cam.tile_bounds(i, j);
        if !check_layout(buff, x_min, x_max, y_min, y_max) {
            return Err(TileFault { i, j });
        }
        let mut k: usize = 0;
        while k < buff.len()
            invariant
                k <= buff@.len(),
                i < WIDTH_PARTITION,
                j < HEIGHT_PARTITION,
                is_tile_layout(buff@, x_min, x_max, y_min, y_max),
                x_max <= cam.width,
                y_max <= cam.height,
                forall|x: usize, y: usize|
                    x_min <= x < x_max && y_min <= y < y_max <==> #[trigger] in_tile(cam.width, cam.height, i, j, x, y),
                self.image.wf(),
                self.image.width == cam.width,
                self.image.height == cam.height,
                self.state == old(self).state,
                self.gate == old(self).gate,
                self.next == old(self).next,
                forall|m: int|
                    0 <= m < k ==> self.image.spec_pixel((#[trigger] buff@[m]).0, buff@[m].1) == spec_bytes_of(
                        buff@[m].2,
                    ),
                forall|x: usize, y: usize|
                    x < cam.width && y < cam.height && !in_tile(cam.width, cam.height, i, j, x, y)
                        ==> #[trigger] self.image.spec_pixel(x, y) == old(self).image.spec_pixel(x, y),
            decreases buff@.len() - k,
        {
            let entry = buff[k];
            let ghost before = self.image;
            proof {
                lemma_layout_in_tile(buff@, x_min, x_max, y_min, y_max, k as int);
            }
            write_color(entry.2, &mut self.image, entry.0, entry.1);
            proof {
                assert(in_tile(cam.width, cam.height, i, j, entry.0, entry.1));
                assert forall|m: int| 0 <= m < k + 1 implies self.image.spec_pixel(
                    (#[trigger] buff@[m]).0,
                    buff@[m].1,
                ) == spec_bytes_of(buff@[m].2) by {
                    if m < k {
                        lemma_layout_distinct(buff@, x_min, x_max, y_min, y_max, m, k as int);
                        lemma_layout_in_tile(buff@, x_min, x_max, y_min, y_max, m);
                        assert(self.image.spec_pixel(buff@[m].0, buff@[m].1) == before.spec_pixel(
                            buff@[m].0,
                            buff@[m].1,
                        ));
                    }
                }
            }
            k += 1;
        }
        proof {
            lemma_in_work_update(self.state@, t as int, WRITTEN);
            if self.gate.outstanding == 0 {
                lemma_none_in_work(self.state@, t as int);
            }
        }
        self.state.set(t, WRITTEN);
        self.gate.complete();
        Ok(())
    }

    /// Whether every tile has been written.
    pub fn is_finished(&self) -> (done: bool)
        requires
            self.wf(),
        ensures
            done == self.all_written(),
            done ==> self.next == TILE_COUNT && self.gate.outstanding == 0,
    {
        let mut t: usize = 0;
        while t < TILE_COUNT
            invariant
                t <= TILE_COUNT,
                self.wf(),
                forall|m: int| 0 <= m < t ==> #[trigger] self.state@[m] == WRITTEN,
            decreases TILE_COUNT - t,
        {
            if self.state[t] != WRITTEN {
                return false;
            }
            t += 1;
        }
        proof {
            lemma_all_written_none_in_work(self.state@);
            if self.next < TILE_COUNT {
                assert(self.state@[self.next as int] == WAITING);
            }
        }
        true
    }
}

/// Where every tile is written, none is in work.
pub proof fn lemma_all_written_none_in_work(state: Seq<u8>)
    requires
        forall|t: int| 0 <= t < state.len() ==> #[trigger] state[t] == WRITTEN,
    ensures
        spec_in_work(state) == 0,
    decreases state.len(),
{
    if state.len() > 0 {
        assert forall|t: int| 0 <= t < state.drop_last().len() implies #[trigger] state.drop_last()[t] == WRITTEN by {
            assert(state.drop_last()[t] == state[t]);
        }
        lemma_all_written_none_in_work(state.drop_last());
    }
}

/// Writing a tile whose pixels have colours that they can have keeps the
/// picture right: every pixel of every written tile shows such a colour.
pub proof fn lemma_written_tile_keeps_pictures(
    before: &TileQueue,
    after: &TileQueue,
    cam: &Camera,
    world: &Hittable,
    i: usize,
    j: usize,
    buff: Seq<(usize, usize, Vec3)>,
)
    requires
        before.wf(),
        before.accepts(cam, i, j, buff),
        before.wrote_tile(after, cam, i, j, buff),
        before.pictures(cam, world),
        forall|k: int| 0 <= k < buff.len() ==> cam.possible_pixel(world, (#[trigger] buff[k]).0, buff[k].1, buff[k].2),
    ensures
        after.pictures(cam, world),
{
    let bounds = cam.spec_tile_bounds(i, j);
    assert forall|x: usize, y: usize, i1: usize, j1: usize|
        #[trigger] in_tile(cam.width, cam.height, i1, j1, x, y) && after.state@[spec_tile_index(i1, j1)] == WRITTEN
        implies cam.shows(world, &after.image, x, y) by {
        lemma_pixel_has_one_tile(cam.width, cam.height, x, y);
        if i1 == i && j1 == j {
            let k = lemma_layout_covers(buff, bounds.0, bounds.1, bounds.2, bounds.3, x, y);
            assert(cam.possible_pixel(world, buff[k].0, buff[k].1, buff[k].2));
            assert(after.image.spec_pixel(buff[k].0, buff[k].1) == spec_bytes_of(buff[k].2));
        } else {
            assert(spec_tile_index(i1, j1) != spec_tile_index(i, j));
            assert(before.state@[spec_tile_index(i1, j1)] == WRITTEN);
            assert(!in_tile(cam.width, cam.height, i, j, x, y));
            assert(after.image.spec_pixel(x, y) == before.image.spec_pixel(x, y));
            cam.lemma_shows_unchanged(world, &before.image, &after.image, x, y);
        }
    }
}

/// Once every tile has been written, every pixel of the image shows a
/// colour that it can have, whatever the limit on the tiles in work was.
pub proof fn lemma_finished_picture_is_whole(q: &TileQueue, cam: &Camera, world: &Hittable, x: usize, y: usize)
    requires
        q.wf(),
        q.all_written(),
        q.pictures(cam, world),
        x < cam.width,
        y < cam.height,
    ensures
        cam.shows(world, &q.image, x, y),
{
    lemma_pixel_has_one_tile(cam.width, cam.height, x, y);
    let i = (x as int / spec_chunk(cam.width, WIDTH_PARTITION)) as usize;
    let j = (y as int / spec_chunk(cam.height, HEIGHT_PARTITION)) as usize;
    assert(in_tile(cam.width, cam.height, i, j, x, y));
    assert(q.state@[spec_tile_index(i, j)] == WRITTEN);
}

/// Where a tile is counted as in work, one is `RENDERING`.
pub proof fn lemma_some_in_work(state: Seq<u8>) -> (t: int)
    requires
        spec_in_work(state) > 0,
    ensures
        0 <= t < state.len(),
        state[t] == RENDERING,
    decreases state.len(),
{
    if state.last() == RENDERING {
        state.len() - 1
    } else {
        lemma_some_in_work(state.drop_last())
    }
}

/// With a limit of one or more no worker waits for ever: as long as a tile
/// waits, either `start` hands one out, or a tile is in work and `finish`
/// will make room when it comes back.
pub proof fn lemma_queue_goes_on(q: &TileQueue)
    requires
        q.wf(),
        q.gate.limit >= 1,
        q.next < TILE_COUNT,
    ensures
        q.gate.outstanding < q.gate.limit || exists|t: int| 0 <= t < TILE_COUNT && #[trigger] q.state@[t] == RENDERING,
{
    if q.gate.outstanding >= q.gate.limit {
        let t = lemma_some_in_work(q.state@);
        assert(q.state@[t] == RENDERING);
    }
}

/// A tile is written once: once it has been written, `finish` refuses it.
pub proof fn lemma_written_tile_is_refused(
    before: &TileQueue,
    after: &TileQueue,
    cam: &Camera,
    i: usize,
    j: usize,
    buff: Seq<(usize, usize, Vec3)>,
    again: Seq<(usize, usize, Vec3)>,
)
    requires
        before.wf(),
        before.accepts(cam, i, j, buff),
        before.wrote_tile(after, cam, i, j, buff),
    ensures
        !after.accepts(cam, i, j, again),
{
}

} // verus!
