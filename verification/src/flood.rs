use std::collections::VecDeque;
use vstd::prelude::*;
use crate::buffer::{PixelBuffer, PixelGrid};
use crate::error::EngineError;
use crate::grid::{adjacent, in_grid, index_of, lemma_index_in_range, lemma_point_at_index, point_at, Point, Rgba};
use crate::mask::{Mask, MaskGrid};

verus! {

/// Whether a pixel is close enough to white: each of red, green and blue is
/// above `255 - tolerance`. Alpha is not looked at. With tolerance `0` no
/// pixel qualifies; with tolerance `255` every pixel without a zero channel does.
pub open spec fn is_white_close(pixel: Rgba, tolerance: u8) -> bool {
    &&& pixel.r > 255 - tolerance
    &&& pixel.g > 255 - tolerance
    &&& pixel.b > 255 - tolerance
}

/// Whether the fill may enter `p`: `p` is in the image, was not yet marked
/// when the fill began, and its colour is white-close.
pub open spec fn passable(image: PixelGrid, start: MaskGrid, tolerance: u8, p: Point) -> bool {
    &&& image.contains(p)
    &&& start.at(p) != 255
    &&& is_white_close(image.at(p), tolerance)
}

/// Whether step `i` of `route` goes to a 4-connected neighbour.
pub open spec fn is_step(route: Seq<Point>, i: int) -> bool {
    adjacent(route[i], route[i + 1])
}

/// Whether `route` leads from a seed over passable positions, each the
/// 4-connected neighbour of the one before.
pub open spec fn is_route(
    image: PixelGrid,
    start: MaskGrid,
    seeds: Seq<Point>,
    tolerance: u8,
    route: Seq<Point>,
) -> bool {
    &&& route.len() > 0
    &&& seeds.contains(route[0])
    &&& forall|i: int| 0 <= i < route.len() ==> passable(image, start, tolerance, #[trigger] route[i])
    &&& forall|i: int| 0 <= i < route.len() - 1 ==> #[trigger] is_step(route, i)
}

/// Whether the fill gets to `p`: some route ends there.
pub open spec fn reaches(
    image: PixelGrid,
    start: MaskGrid,
    seeds: Seq<Point>,
    tolerance: u8,
    p: Point,
) -> bool {
    exists|route: Seq<Point>| #[trigger] is_route(image, start, seeds, tolerance, route) && route.last() == p
}

/// The mask after a fill: `255` wherever the fill gets to, and what `start`
/// held everywhere else.
pub open spec fn flooded(image: PixelGrid, start: MaskGrid, seeds: Seq<Point>, tolerance: u8) -> MaskGrid {
    MaskGrid {
        width: start.width,
        height: start.height,
        samples: Seq::new(
            start.samples.len(),
            |i: int|
                if reaches(image, start, seeds, tolerance, point_at(start.width, i)) {
                    255u8
                } else {
                    start.samples[i]
                },
        ),
    }
}

/// The four corners of a grid that is not empty.
pub open spec fn corner_seeds(width: nat, height: nat) -> Seq<Point> {
    seq![
        Point { x: 0, y: 0 },
        Point { x: (width - 1) as u32, y: 0 },
        Point { x: 0, y: (height - 1) as u32 },
        Point { x: (width - 1) as u32, y: (height - 1) as u32 },
    ]
}

/// The mask that a fill from the four corners leaves on a blank mask: `255`
/// for the pixels joined to a corner through white-close pixels, `0` for the rest.
pub open spec fn flood_mask(image: PixelGrid, tolerance: u8) -> MaskGrid {
    flooded(
        image,
        MaskGrid::blank(image.width, image.height),
        corner_seeds(image.width, image.height),
        tolerance,
    )
}

/// How many samples are not yet `255`.
spec fn unmarked_count(samples: Seq<u8>) -> nat
    decreases samples.len(),
{
    if samples.len() == 0 {
        0
    } else {
        unmarked_count(samples.drop_last()) + if samples.last() != 255 {
            1nat
        } else {
            0nat
        }
    }
}

/// Marking one more sample leaves one fewer to mark.
proof fn lemma_marking_decreases(samples: Seq<u8>, i: int)
    requires
        0 <= i < samples.len(),
        samples[i] != 255,
    ensures
        unmarked_count(samples.update(i, 255)) + 1 == unmarked_count(samples),
    decreases samples.len(),
{
    let marked = samples.update(i, 255);
    if i == samples.len() - 1 {
        assert(marked.drop_last() =~= samples.drop_last());
    } else {
        assert(marked.drop_last() =~= samples.drop_last().update(i, 255));
        lemma_marking_decreases(samples.drop_last(), i);
    }
}

/// A passable seed is reached by the route that holds nothing else.
proof fn lemma_seed_reached(image: PixelGrid, start: MaskGrid, seeds: Seq<Point>, tolerance: u8, j: int)
    requires
        0 <= j < seeds.len(),
        passable(image, start, tolerance, seeds[j]),
    ensures
        reaches(image, start, seeds, tolerance, seeds[j]),
{
    let route = seq![seeds[j]];
    assert(route[0] == seeds[j]);
    assert(is_route(image, start, seeds, tolerance, route));
}

/// A passable neighbour of a position that the fill gets to is reached too.
proof fn lemma_neighbour_reached(
    image: PixelGrid,
    start: MaskGrid,
    seeds: Seq<Point>,
    tolerance: u8,
    p: Point,
    q: Point,
)
    requires
        reaches(image, start, seeds, tolerance, p),
        adjacent(p, q),
        passable(image, start, tolerance, q),
    ensures
        reaches(image, start, seeds, tolerance, q),
{
    let route = choose|route: Seq<Point>| #[trigger]
        is_route(image, start, seeds, tolerance, route) && route.last() == p;
    let longer = route.push(q);
    assert(longer[0] == route[0]);
    assert forall|i: int| 0 <= i < longer.len() implies passable(
        image,
        start,
        tolerance,
        #[trigger] longer[i],
    ) by {
        if i < route.len() {
            assert(longer[i] == route[i]);
        }
    }
    assert forall|i: int| 0 <= i < longer.len() - 1 implies #[trigger] is_step(longer, i) by {
        if i < route.len() - 1 {
            assert(is_step(route, i));
        }
    }
    assert(is_route(image, start, seeds, tolerance, longer));
    assert(longer.last() == q);
}

/// Whether `mask` can grow no further: every passable seed is marked, and so
/// is every passable neighbour of a position that the fill has marked.
spec fn is_saturated(
    image: PixelGrid,
    start: MaskGrid,
    seeds: Seq<Point>,
    tolerance: u8,
    mask: MaskGrid,
) -> bool {
    &&& forall|j: int|
        0 <= j < seeds.len() && passable(image, start, tolerance, #[trigger] seeds[j]) ==> mask.at(
            seeds[j],
        ) == 255
    &&& forall|p: Point, q: Point|
        passable(image, start, tolerance, p) && mask.at(p) == 255 && #[trigger] adjacent(p, q)
            && passable(image, start, tolerance, q) ==> mask.at(q) == 255
}

/// In a mask that can grow no further, every position on a route is marked.
proof fn lemma_route_marked(
    image: PixelGrid,
    start: MaskGrid,
    seeds: Seq<Point>,
    tolerance: u8,
    mask: MaskGrid,
    route: Seq<Point>,
    i: int,
)
    requires
        is_saturated(image, start, seeds, tolerance, mask),
        is_route(image, start, seeds, tolerance, route),
        0 <= i < route.len(),
    ensures
        mask.at(route[i]) == 255,
    decreases i,
{
    if i == 0 {
        let j = choose|j: int| 0 <= j < seeds.len() && seeds[j] == route[0];
        assert(passable(image, start, tolerance, seeds[j]));
    } else {
        lemma_route_marked(image, start, seeds, tolerance, mask, route, i - 1);
        assert(is_step(route, i - 1));
        assert(passable(image, start, tolerance, route[i - 1]));
        assert(passable(image, start, tolerance, route[i]));
    }
}

/// What holds of the mask and the work queue all through a fill.
spec fn fill_invariant(
    image: PixelGrid,
    start: MaskGrid,
    seeds: Seq<Point>,
    tolerance: u8,
    mask: MaskGrid,
    queue: Seq<Point>,
) -> bool {
    &&& image.wf()
    &&& start.wf()
    &&& mask.wf()
    &&& start.width == image.width && start.height == image.height
    &&& mask.width == image.width && mask.height == image.height
    // a position holds what it held at the start, or was marked because the fill gets to it
    &&& forall|p: Point|
        image.contains(p) ==> #[trigger] mask.at(p) == start.at(p) || (mask.at(p) == 255 && reaches(
            image,
            start,
            seeds,
            tolerance,
            p,
        ))
    // what waits in the queue is in the image, and is reached if it is passable
    &&& forall|i: int|
        0 <= i < queue.len() ==> image.contains(#[trigger] queue[i]) && (passable(
            image,
            start,
            tolerance,
            queue[i],
        ) ==> reaches(image, start, seeds, tolerance, queue[i]))
    // a passable seed is marked or waits in the queue
    &&& forall|j: int|
        0 <= j < seeds.len() && passable(image, start, tolerance, #[trigger] seeds[j]) ==> mask.at(
            seeds[j],
        ) == 255 || queue.contains(seeds[j])
    // a passable neighbour of a position that the fill marked is marked or waits in the queue
    &&& forall|p: Point, q: Point|
        passable(image, start, tolerance, p) && mask.at(p) == 255 && #[trigger] adjacent(p, q)
            && passable(image, start, tolerance, q) ==> mask.at(q) == 255 || queue.contains(q)
}

/// Whether `after` is `before` with in-grid neighbours of `p` put behind it,
/// all of them among these.
spec fn neighbours_pushed(width: nat, height: nat, p: Point, before: Seq<Point>, after: Seq<Point>) -> bool {
    &&& before.len() <= after.len()
    &&& forall|i: int| 0 <= i < before.len() ==> #[trigger] after[i] == before[i]
    &&& forall|i: int|
        before.len() <= i < after.len() ==> in_grid(width, height, #[trigger] after[i]) && adjacent(
            p,
            after[i],
        )
    &&& forall|q: Point| in_grid(width, height, q) && #[trigger] adjacent(p, q) ==> after.contains(q)
}

proof fn lemma_invariant_at_start(image: PixelGrid, start: MaskGrid, seeds: Seq<Point>, tolerance: u8)
    requires
        image.wf(),
        start.wf(),
        start.width == image.width && start.height == image.height,
        forall|j: int| 0 <= j < seeds.len() ==> image.contains(#[trigger] seeds[j]),
    ensures
        fill_invariant(image, start, seeds, tolerance, start, seeds),
{
    assert forall|i: int| 0 <= i < seeds.len() && passable(
        image,
        start,
        tolerance,
        #[trigger] seeds[i],
    ) implies reaches(image, start, seeds, tolerance, seeds[i]) by {
        lemma_seed_reached(image, start, seeds, tolerance, i);
    }
}

/// Taking an entry off the queue that cannot be marked keeps the invariant.
proof fn lemma_skip_keeps_invariant(
    image: PixelGrid,
    start: MaskGrid,
    seeds: Seq<Point>,
    tolerance: u8,
    mask: MaskGrid,
    queue: Seq<Point>,
)
    requires
        fill_invariant(image, start, seeds, tolerance, mask, queue),
        queue.len() > 0,
        mask.at(queue[0]) == 255 || !is_white_close(image.at(queue[0]), tolerance),
    ensures
        fill_invariant(image, start, seeds, tolerance, mask, queue.subrange(1, queue.len() as int)),
{
    let rest = queue.subrange(1, queue.len() as int);
    assert forall|i: int| 0 <= i < rest.len() implies image.contains(#[trigger] rest[i]) && (passable(
        image,
        start,
        tolerance,
        rest[i],
    ) ==> reaches(image, start, seeds, tolerance, rest[i])) by {
        assert(rest[i] == queue[i + 1]);
    }
    assert forall|x: Point| queue.contains(x) && x != queue[0] implies rest.contains(x) by {
        let i = choose|i: int| 0 <= i < queue.len() && queue[i] == x;
        assert(rest[i - 1] == x);
    }
}

/// Marking the entry at the head of the queue and queueing its neighbours
/// keeps the invariant and leaves one sample fewer to mark.
proof fn lemma_mark_keeps_invariant(
    image: PixelGrid,
    start: MaskGrid,
    seeds: Seq<Point>,
    tolerance: u8,
    mask: MaskGrid,
    queue: Seq<Point>,
    after: Seq<Point>,
)
    requires
        fill_invariant(image, start, seeds, tolerance, mask, queue),
        queue.len() > 0,
        mask.at(queue[0]) != 255,
        is_white_close(image.at(queue[0]), tolerance),
        neighbours_pushed(
            image.width,
            image.height,
            queue[0],
            queue.subrange(1, queue.len() as int),
            after,
        ),
    ensures
        fill_invariant(image, start, seeds, tolerance, mask.with(queue[0], 255), after),
        unmarked_count(mask.with(queue[0], 255).samples) < unmarked_count(mask.samples),
{
    let p = queue[0];
    let rest = queue.subrange(1, queue.len() as int);
    let marked = mask.with(p, 255);
    assert(image.contains(p));
    lemma_index_in_range(mask.width, mask.height, p);
    lemma_marking_decreases(mask.samples, index_of(mask.width, p));
    assert(mask.at(p) == start.at(p));
    assert(passable(image, start, tolerance, p));
    assert(reaches(image, start, seeds, tolerance, p));
    assert forall|x: Point| image.contains(x) implies #[trigger] marked.at(x) == (if x == p {
        255u8
    } else {
        mask.at(x)
    }) by {
        mask.lemma_with(p, 255, x);
    }
    mask.lemma_with(p, 255, p);
    assert forall|x: Point| queue.contains(x) && x != p implies after.contains(x) by {
        let i = choose|i: int| 0 <= i < queue.len() && queue[i] == x;
        assert(rest[i - 1] == x);
        assert(after[i - 1] == rest[i - 1]);
    }
    assert forall|i: int| 0 <= i < after.len() implies image.contains(#[trigger] after[i]) && (passable(
        image,
        start,
        tolerance,
        after[i],
    ) ==> reaches(image, start, seeds, tolerance, after[i])) by {
        if i < rest.len() {
            assert(after[i] == rest[i]);
            assert(rest[i] == queue[i + 1]);
        } else {
            if passable(image, start, tolerance, after[i]) {
                lemma_neighbour_reached(image, start, seeds, tolerance, p, after[i]);
            }
        }
    }
    assert forall|x: Point|
        image.contains(x) implies #[trigger] marked.at(x) == start.at(x) || (marked.at(x) == 255
        && reaches(image, start, seeds, tolerance, x)) by {
        assert(mask.at(x) == start.at(x) || (mask.at(x) == 255 && reaches(
            image,
            start,
            seeds,
            tolerance,
            x,
        )));
    }
    assert forall|j: int|
        0 <= j < seeds.len() && passable(
            image,
            start,
            tolerance,
            #[trigger] seeds[j],
        ) implies marked.at(seeds[j]) == 255 || after.contains(seeds[j]) by {
        assert(marked.at(seeds[j]) == (if seeds[j] == p { 255u8 } else { mask.at(seeds[j]) }));
    }
    assert forall|a: Point, b: Point|
        passable(image, start, tolerance, a) && marked.at(a) == 255 && #[trigger] adjacent(a, b)
            && passable(image, start, tolerance, b) implies marked.at(b) == 255 || after.contains(
        b,
    ) by {
        assert(marked.at(a) == (if a == p { 255u8 } else { mask.at(a) }));
        assert(marked.at(b) == (if b == p { 255u8 } else { mask.at(b) }));
    }
}

/// When the queue has run empty, the mask is the flooded one.
proof fn lemma_empty_queue_means_flooded(
    image: PixelGrid,
    start: MaskGrid,
    seeds: Seq<Point>,
    tolerance: u8,
    mask: MaskGrid,
)
    requires
        fill_invariant(image, start, seeds, tolerance, mask, Seq::<Point>::empty()),
    ensures
        mask == flooded(image, start, seeds, tolerance),
{
    let target = flooded(image, start, seeds, tolerance);
    let none = Seq::<Point>::empty();
    assert forall|x: Point| !none.contains(x) by {}
    assert(is_saturated(image, start, seeds, tolerance, mask));
    assert forall|i: int| 0 <= i < mask.samples.len() implies mask.samples[i] == target.samples[i] by {
        lemma_point_at_index(mask.width, mask.height, i);
        let p = point_at(mask.width, i);
        assert(mask.at(p) == mask.samples[i]);
        assert(start.at(p) == start.samples[i]);
        if reaches(image, start, seeds, tolerance, p) {
            let route = choose|route: Seq<Point>| #[trigger]
                is_route(image, start, seeds, tolerance, route) && route.last() == p;
            lemma_route_marked(image, start, seeds, tolerance, mask, route, route.len() - 1);
        }
    }
    assert(mask.samples =~= target.samples);
}

/// Whether `pixel` is white-close under `tolerance`.
pub fn white_close(pixel: Rgba, tolerance: u8) -> (close: bool)
    ensures
        close == is_white_close(pixel, tolerance),
{
    let floor: u8 = 255 - tolerance;
    pixel.r > floor && pixel.g > floor && pixel.b > floor
}

/// The four corners of an image `width` by `height`, neither of them zero.
pub fn corners(width: u32, height: u32) -> (seeds: Vec<Point>)
    requires
        width > 0,
        height > 0,
    ensures
        seeds@ == corner_seeds(width as nat, height as nat),
{
    let mut seeds: Vec<Point> = Vec::new();
    seeds.push(Point { x: 0, y: 0 });
    seeds.push(Point { x: width - 1, y: 0 });
    seeds.push(Point { x: 0, y: height - 1 });
    seeds.push(Point { x: width - 1, y: height - 1 });
    assert(seeds@ =~= corner_seeds(width as nat, height as nat));
    seeds
}

/// Puts the neighbours of `p` that lie in the image at the back of `queue`.
fn push_neighbours(queue: &mut VecDeque<Point>, p: Point, width: u32, height: u32)
    requires
        in_grid(width as nat, height as nat, p),
    ensures
        neighbours_pushed(width as nat, height as nat, p, old(queue)@, final(queue)@),
{
    let ghost before = queue@;
    if p.x > 0 {
        queue.push_back(Point { x: p.x - 1, y: p.y });
    }
    let ghost with_left = queue@;
    if p.x + 1 < width {
        queue.push_back(Point { x: p.x + 1, y: p.y });
    }
    let ghost with_right = queue@;
    if p.y > 0 {
        queue.push_back(Point { x: p.x, y: p.y - 1 });
    }
    let ghost with_up = queue@;
    if p.y + 1 < height {
        queue.push_back(Point { x: p.x, y: p.y + 1 });
    }
    proof {
        let after = queue@;
        assert forall|q: Point|
            in_grid(width as nat, height as nat, q) && #[trigger] adjacent(p, q) implies after.contains(
            q,
        ) by {
            if q.y == p.y && q.x + 1 == p.x {
                assert(with_left[before.len() as int] == q);
                assert(after[before.len() as int] == q);
            } else if q.y == p.y && p.x + 1 == q.x {
                assert(with_right[with_left.len() as int] == q);
                assert(after[with_left.len() as int] == q);
            } else if q.x == p.x && q.y + 1 == p.y {
                assert(with_up[with_right.len() as int] == q);
                assert(after[with_right.len() as int] == q);
            } else {
                assert(after[with_up.len() as int] == q);
            }
        }
    }
}

/// Why a fill refuses its input, if it does.
pub open spec fn fill_error(image: PixelGrid, mask: MaskGrid, seeds: Seq<Point>) -> Option<EngineError> {
    if image.is_empty() || mask.is_empty() {
        Some(EngineError::InvalidDimensions)
    } else if mask.width != image.width || mask.height != image.height {
        Some(EngineError::DimensionMismatch)
    } else if exists|j: int| 0 <= j < seeds.len() && !image.contains(#[trigger] seeds[j]) {
        Some(EngineError::OutOfRange)
    } else {
        None
    }
}

/// Grows the background in `mask` from `seeds`: a breadth-first flood fill
/// over 4-connected pixels. A pixel is marked `255` when it comes off the work
/// queue, is not yet `255` in `mask` and is white-close; its neighbours are
/// then queued. What the fill does not get to keeps its value, so a value of
/// `255` is never taken back.
///
/// An image or mask with a zero side, a mask of another size than the image,
/// and a seed outside the image are refused, in this order, and `mask` is
/// left as it was.
pub fn fill_mask(image: &PixelBuffer, mask: &mut Mask, seeds: &Vec<Point>, tolerance: u8) -> (r: Result<
    (),
    EngineError,
>)
    ensures
        match fill_error(image@, old(mask)@, seeds@) {
            Some(e) => r == Err::<(), EngineError>(e) && final(mask)@ == old(mask)@,
            None => r == Ok::<(), EngineError>(()) && final(mask)@ == flooded(
                image@,
                old(mask)@,
                seeds@,
                tolerance,
            ),
        },
        forall|p: Point|
            old(mask)@.contains(p) && old(mask)@.at(p) == 255 ==> #[trigger] final(mask)@.at(p) == 255,
{
    proof {
        use_type_invariant(image);
        image.lemma_view_wf();
        use_type_invariant(&*mask);
        mask.lemma_view_wf();
    }
    let width: u32 = image.width();
    let height: u32 = image.height();
    if width == 0 || height == 0 || mask.width() == 0 || mask.height() == 0 {
        return Err(EngineError::InvalidDimensions);
    }
    if mask.width() != width || mask.height() != height {
        return Err(EngineError::DimensionMismatch);
    }
    let ghost start = mask@;
    let mut queue: VecDeque<Point> = VecDeque::new();
    let mut k: usize = 0;
    while k < seeds.len()
        invariant
            k <= seeds@.len(),
            width == image@.width,
            height == image@.height,
            width > 0 && height > 0,
            mask@ == start,
            start == old(mask)@,
            start.width == width && start.height == height,
            queue@ == seeds@.subrange(0, k as int),
            forall|j: int| 0 <= j < k ==> image@.contains(#[trigger] seeds@[j]),
        decreases seeds@.len() - k,
    {
        let seed: Point = seeds[k];
        if seed.x >= width || seed.y >= height {
            assert(!image@.contains(seeds@[k as int]));
            return Err(EngineError::OutOfRange);
        }
        queue.push_back(seed);
        assert(queue@ =~= seeds@.subrange(0, k as int + 1));
        k += 1;
    }
    proof {
        assert(queue@ =~= seeds@);
        lemma_invariant_at_start(image@, start, seeds@, tolerance);
    }
    while queue.len() > 0
        invariant
            width == image@.width,
            height == image@.height,
            fill_invariant(image@, start, seeds@, tolerance, mask@, queue@),
        decreases unmarked_count(mask@.samples), queue@.len(),
    {
        let ghost waiting = queue@;
        let ghost reached = mask@;
        let p: Point = queue.pop_front().unwrap();
        assert(image@.contains(waiting[0]));
        if mask.get(p.x, p.y) != 255 && white_close(image.get(p.x, p.y), tolerance) {
            mask.set(p.x, p.y, 255);
            push_neighbours(&mut queue, p, width, height);
            proof {
                lemma_mark_keeps_invariant(image@, start, seeds@, tolerance, reached, waiting, queue@);
            }
        } else {
            proof {
                lemma_skip_keeps_invariant(image@, start, seeds@, tolerance, reached, waiting);
            }
        }
    }
    proof {
        assert(queue@ =~= Seq::<Point>::empty());
        lemma_empty_queue_means_flooded(image@, start, seeds@, tolerance, mask@);
        assert forall|p: Point| start.contains(p) && start.at(p) == 255 implies #[trigger] mask@.at(p)
            == 255 by {
            lemma_index_in_range(start.width, start.height, p);
        }
    }
    Ok(())
}

/// Why building a mask from seeds refuses its input, if it does.
pub open spec fn build_error(image: PixelGrid, seeds: Seq<Point>) -> Option<EngineError> {
    if image.is_empty() {
        Some(EngineError::InvalidDimensions)
    } else if exists|j: int| 0 <= j < seeds.len() && !image.contains(#[trigger] seeds[j]) {
        Some(EngineError::OutOfRange)
    } else {
        None
    }
}

/// The mask of `image` by connectivity to `seeds`: `255` for every pixel
/// joined to a seed through white-close pixels, `0` for every other. An image
/// with a zero side is refused, and so is a seed outside the image.
pub fn build_mask_from(image: &PixelBuffer, seeds: &Vec<Point>, tolerance: u8) -> (r: Result<
    Mask,
    EngineError,
>)
    ensures
        match build_error(image@, seeds@) {
            Some(e) => r == Err::<Mask, EngineError>(e),
            None => r matches Ok(mask) && mask@.is_binary() && mask@ == flooded(
                image@,
                MaskGrid::blank(image@.width, image@.height),
                seeds@,
                tolerance,
            ),
        },
{
    proof {
        use_type_invariant(image);
        image.lemma_view_wf();
    }
    let width: u32 = image.width();
    let height: u32 = image.height();
    if width == 0 || height == 0 {
        return Err(EngineError::InvalidDimensions);
    }
    let samples: &Vec<u8> = image.samples();
    assert(width * height <= isize::MAX) by {
        assert(samples.len() == samples@.len());
    }
    let mut mask: Mask = match Mask::new(width, height) {
        Ok(blank) => blank,
        Err(e) => {
            return Err(e);
        },
    };
    match fill_mask(image, &mut mask, seeds, tolerance) {
        Ok(()) => Ok(mask),
        Err(e) => Err(e),
    }
}

/// The mask of `image` by connectivity: `255` for every pixel joined to a
/// corner of the image through white-close pixels, `0` for every other. An
/// image with a zero side is refused.
pub fn build_mask(image: &PixelBuffer, tolerance: u8) -> (r: Result<Mask, EngineError>)
    ensures
        image@.is_empty() ==> r == Err::<Mask, EngineError>(EngineError::InvalidDimensions),
        !image@.is_empty() ==> (r matches Ok(mask) && mask@ == flood_mask(image@, tolerance)
            && mask@.is_binary()),
{
    proof {
        use_type_invariant(image);
        image.lemma_view_wf();
    }
    let width: u32 = image.width();
    let height: u32 = image.height();
    if width == 0 || height == 0 {
        return Err(EngineError::InvalidDimensions);
    }
    let seeds: Vec<Point> = corners(width, height);
    proof {
        lemma_corners_in_grid(width as nat, height as nat);
    }
    build_mask_from(image, &seeds, tolerance)
}

/// The corners of a grid that is not empty lie in it.
pub proof fn lemma_corners_in_grid(width: nat, height: nat)
    requires
        0 < width <= u32::MAX,
        0 < height <= u32::MAX,
    ensures
        forall|j: int|
            0 <= j < corner_seeds(width, height).len() ==> in_grid(
                width,
                height,
                #[trigger] corner_seeds(width, height)[j],
            ),
        corner_seeds(width, height).len() == 4,
{
}

/// A fill never takes a mark back: what was `255` before is `255` after.
pub proof fn lemma_fill_keeps_marks(
    image: PixelGrid,
    start: MaskGrid,
    seeds: Seq<Point>,
    tolerance: u8,
    p: Point,
)
    requires
        start.wf(),
        start.contains(p),
        start.at(p) == 255,
    ensures
        flooded(image, start, seeds, tolerance).at(p) == 255,
{
    lemma_index_in_range(start.width, start.height, p);
}

/// What a fill leaves at a position: `255` if it gets there, else what was there.
pub proof fn lemma_flooded_at(image: PixelGrid, start: MaskGrid, seeds: Seq<Point>, tolerance: u8, p: Point)
    requires
        start.wf(),
        start.contains(p),
    ensures
        flooded(image, start, seeds, tolerance).at(p) == (if reaches(image, start, seeds, tolerance, p) {
            255u8
        } else {
            start.at(p)
        }),
{
    lemma_index_in_range(start.width, start.height, p);
    let i = index_of(start.width, p);
    lemma_point_at_index(start.width, start.height, i);
    crate::grid::lemma_index_injective(start.width, start.height, p, point_at(start.width, i));
}

/// A fill is idempotent: run again on its own result, from the same
/// seeds and with the same tolerance, it changes nothing.
pub proof fn lemma_fill_idempotent(image: PixelGrid, start: MaskGrid, seeds: Seq<Point>, tolerance: u8)
    requires
        image.wf(),
        start.wf(),
        start.width == image.width,
        start.height == image.height,
    ensures
        flooded(image, flooded(image, start, seeds, tolerance), seeds, tolerance) == flooded(
            image,
            start,
            seeds,
            tolerance,
        ),
{
    let once = flooded(image, start, seeds, tolerance);
    let twice = flooded(image, once, seeds, tolerance);
    assert forall|p: Point| !reaches(image, once, seeds, tolerance, p) by {
        if reaches(image, once, seeds, tolerance, p) {
            let route = choose|route: Seq<Point>| #[trigger]
                is_route(image, once, seeds, tolerance, route) && route.last() == p;
            let s = route[0];
            assert(passable(image, once, tolerance, s));
            lemma_flooded_at(image, start, seeds, tolerance, s);
            let j = choose|j: int| 0 <= j < seeds.len() && seeds[j] == s;
            assert(passable(image, start, tolerance, seeds[j]));
            lemma_seed_reached(image, start, seeds, tolerance, j);
        }
    }
    assert(twice.samples =~= once.samples);
}

/// The builder is idempotent and repeatable: a second fill from the corners
/// leaves the mask of the first as it is.
pub proof fn lemma_flood_mask_idempotent(image: PixelGrid, tolerance: u8)
    requires
        image.wf(),
    ensures
        flooded(
            image,
            flood_mask(image, tolerance),
            corner_seeds(image.width, image.height),
            tolerance,
        ) == flood_mask(image, tolerance),
{
    lemma_fill_idempotent(
        image,
        MaskGrid::blank(image.width, image.height),
        corner_seeds(image.width, image.height),
        tolerance,
    );
}

/// A larger tolerance never shrinks the background: where the fill gets to
/// with `low`, it gets to with any `high` above it.
pub proof fn lemma_tolerance_monotone(
    image: PixelGrid,
    start: MaskGrid,
    seeds: Seq<Point>,
    low: u8,
    high: u8,
    p: Point,
)
    requires
        low <= high,
        reaches(image, start, seeds, low, p),
    ensures
        reaches(image, start, seeds, high, p),
{
    let route = choose|route: Seq<Point>| #[trigger]
        is_route(image, start, seeds, low, route) && route.last() == p;
    assert forall|i: int| 0 <= i < route.len() implies passable(image, start, high, #[trigger] route[i]) by {
        assert(passable(image, start, low, route[i]));
    }
    assert(is_route(image, start, seeds, high, route));
}

/// The background of the builder's mask under a tolerance lies within its
/// background under any larger tolerance.
pub proof fn lemma_flood_mask_grows_with_tolerance(image: PixelGrid, low: u8, high: u8, p: Point)
    requires
        image.wf(),
        image.contains(p),
        low <= high,
        flood_mask(image, low).at(p) == 255,
    ensures
        flood_mask(image, high).at(p) == 255,
{
    let blank = MaskGrid::blank(image.width, image.height);
    let seeds = corner_seeds(image.width, image.height);
    lemma_index_in_range(image.width, image.height, p);
    lemma_flooded_at(image, blank, seeds, low, p);
    lemma_flooded_at(image, blank, seeds, high, p);
    lemma_tolerance_monotone(image, blank, seeds, low, high, p);
}

/// A fill does not get to a position that is no seed and has no passable
/// neighbour, whatever its own colour.
pub proof fn lemma_isolated_not_reached(
    image: PixelGrid,
    start: MaskGrid,
    seeds: Seq<Point>,
    tolerance: u8,
    p: Point,
)
    requires
        !seeds.contains(p),
        forall|q: Point| #[trigger] adjacent(q, p) ==> !passable(image, start, tolerance, q),
    ensures
        !reaches(image, start, seeds, tolerance, p),
{
    if reaches(image, start, seeds, tolerance, p) {
        let route = choose|route: Seq<Point>| #[trigger]
            is_route(image, start, seeds, tolerance, route) && route.last() == p;
        let n = route.len() - 1;
        if n == 0 {
            assert(seeds.contains(route[0]));
        } else {
            assert(is_step(route, n - 1));
            assert(passable(image, start, tolerance, route[n - 1]));
        }
    }
}

/// An isolated pixel stays foreground in the builder's mask: a position that
/// is no corner and whose neighbours are not white-close holds `0`.
pub proof fn lemma_isolated_stays_foreground(image: PixelGrid, tolerance: u8, p: Point)
    requires
        image.wf(),
        image.contains(p),
        !corner_seeds(image.width, image.height).contains(p),
        forall|q: Point|
            image.contains(q) && #[trigger] adjacent(q, p) ==> !is_white_close(image.at(q), tolerance),
    ensures
        flood_mask(image, tolerance).at(p) == 0,
{
    let blank = MaskGrid::blank(image.width, image.height);
    let seeds = corner_seeds(image.width, image.height);
    lemma_isolated_not_reached(image, blank, seeds, tolerance, p);
    lemma_flooded_at(image, blank, seeds, tolerance, p);
    lemma_index_in_range(image.width, image.height, p);
}

} // verus!
