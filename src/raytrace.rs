use vstd::prelude::*;

verus! {

/// The kinds of light source a scene can hold.
#[derive(Clone, Copy, Debug, PartialEq, Eq, Structural)]
pub enum LightSourceKind {
    /// Light radiating from a single point; only the pose's position counts.
    Point,
}

/// Key of the medium surrounding the whole scene (refraction index 1).
pub const AMBIENT_MEDIUM: u32 = 0;

/// rpds's persistent stack, opaque here: what it holds is `media_of`.
#[verifier::external_type_specification]
#[verifier::external_body]
#[verifier::reject_recursive_types(T)]
pub struct ExStack<T>(rpds::Stack<T>);

/// The media keys held by a persistent stack, bottom first: the last element
/// is the top.
pub uninterp spec fn media_of(s: rpds::Stack<u32>) -> Seq<u32>;

/// Relies on `rpds::Stack::new`: a stack holding nothing.
#[verifier::external_body]
fn empty_media() -> (r: rpds::Stack<u32>)
    ensures
        media_of(r) == Seq::<u32>::empty(),
{
    rpds::Stack::new()
}

/// Relies on `rpds::Stack::push`: a new stack with `m` on top of `s`, which
/// is left as it was.
#[verifier::external_body]
fn push_medium(s: &rpds::Stack<u32>, m: u32) -> (r: rpds::Stack<u32>)
    ensures
        media_of(r) == media_of(*s).push(m),
{
    s.push(m)
}

/// Relies on `rpds::Stack::pop`: `None` on an empty stack, else a new stack
/// without the top of `s`, which is left as it was.
#[verifier::external_body]
fn pop_medium(s: &rpds::Stack<u32>) -> (r: Option<rpds::Stack<u32>>)
    ensures
        r is None <==> media_of(*s).len() == 0,
        r matches Some(t) ==> media_of(t) == media_of(*s).drop_last(),
{
    s.pop()
}

/// Relies on `rpds::Stack::peek`: the top of `s`, if any.
#[verifier::external_body]
fn top_medium(s: &rpds::Stack<u32>) -> (r: Option<u32>)
    ensures
        r is None <==> media_of(*s).len() == 0,
        r matches Some(m) ==> m == media_of(*s).last(),
{
    s.peek().copied()
}

/// Relies on `Clone for rpds::Stack`: a stack sharing the contents of `s`.
#[verifier::external_body]
fn share_media(s: &rpds::Stack<u32>) -> (r: rpds::Stack<u32>)
    ensures
        media_of(r) == media_of(*s),
{
    s.clone()
}

/// What one ray carries through the recursion: the ray itself, the number
/// of bounces it may still take, and the stack of media it is inside of.
pub struct RayState<R> {
    ray: R,
    steps_left: usize,
    media: rpds::Stack<u32>,
}

impl<R> RayState<R> {
    /// The ray.
    pub closed spec fn spec_ray(&self) -> R {
        self.ray
    }

    /// Bounces the ray may still take.
    pub closed spec fn spec_steps_left(&self) -> nat {
        self.steps_left as nat
    }

    /// Media the ray is inside of, outermost first; the last one is where
    /// it currently travels.
    pub closed spec fn media(&self) -> Seq<u32> {
        media_of(self.media)
    }

    pub fn ray(&self) -> (r: &R)
        ensures
            *r == self.spec_ray(),
    {
        &self.ray
    }

    pub fn steps_left(&self) -> (r: usize)
        ensures
            r == self.spec_steps_left(),
    {
        self.steps_left
    }

    /// The medium the ray currently travels in, if it is inside any.
    pub fn current_medium(&self) -> (r: Option<u32>)
        ensures
            r is None <==> self.media().len() == 0,
            r matches Some(m) ==> m == self.media().last(),
    {
        top_medium(&self.media)
    }

    /// A primary ray with a budget of `steps` bounces, travelling through
    /// the ambient medium.
    pub fn new(ray: R, steps: usize) -> (r: Self)
        ensures
            r.spec_ray() == ray,
            r.spec_steps_left() == steps,
            r.media() == seq![AMBIENT_MEDIUM],
    {
        let media = push_medium(&empty_media(), AMBIENT_MEDIUM);
        proof {
            assert(Seq::<u32>::empty().push(AMBIENT_MEDIUM) =~= seq![AMBIENT_MEDIUM]);
        }
        RayState { ray, steps_left: steps, media }
    }

    /// A child ray that stays in the current medium.
    pub fn push(&self, ray: R) -> (r: Self)
        requires
            self.spec_steps_left() > 0,
        ensures
            r.spec_ray() == ray,
            r.spec_steps_left() == self.spec_steps_left() - 1,
            r.media() == self.media(),
    {
        RayState { ray, steps_left: self.steps_left - 1, media: share_media(&self.media) }
    }

    /// A child ray that enters the medium `medium`.
    pub fn refract(&self, ray: R, medium: u32) -> (r: Self)
        requires
            self.spec_steps_left() > 0,
        ensures
            r.spec_ray() == ray,
            r.spec_steps_left() == self.spec_steps_left() - 1,
            r.media() == self.media().push(medium),
    {
        RayState { ray, steps_left: self.steps_left - 1, media: push_medium(&self.media, medium) }
    }

    /// A child ray that leaves the medium it currently travels in.
    pub fn unrefract(&self, ray: R) -> (r: Self)
        requires
            self.spec_steps_left() > 0,
            self.media().len() > 0,
        ensures
            r.spec_ray() == ray,
            r.spec_steps_left() == self.spec_steps_left() - 1,
            r.media() == self.media().drop_last(),
    {
        match pop_medium(&self.media) {
            Some(media) => RayState { ray, steps_left: self.steps_left - 1, media },
            None => {
                proof {
                    assert(false);
                }
                RayState { ray, steps_left: self.steps_left - 1, media: empty_media() }
            },
        }
    }
}

/// Shades one ray. A ray with no bounces left is absorbed and gives
/// `absorbed` without consulting the scene; otherwise `query` finds what the
/// ray hits first: nothing gives `background`, and a hit is handed to `shade`
/// together with the ray's state, from which child rays are derived.
pub fn cast_ray<R, H, C, Q: Fn(&R) -> Option<H>, S: Fn(&RayState<R>, H) -> C>(
    ray: &RayState<R>,
    absorbed: C,
    background: C,
    query: Q,
    shade: S,
) -> (r: C)
    requires
        ray.spec_steps_left() > 0 ==> query.requires((&ray.spec_ray(),)),
        forall|h: H| shade.requires((ray, h)),
    ensures
        ray.spec_steps_left() == 0 ==> r == absorbed,
        ray.spec_steps_left() > 0 && (forall|h: Option<H>| #[trigger]
            query.ensures((&ray.spec_ray(),), h) ==> h is None) ==> r == background,
        ray.spec_steps_left() > 0 ==> exists|h: Option<H>|
            #[trigger] query.ensures((&ray.spec_ray(),), h) && match h {
                None => r == background,
                Some(hit) => shade.ensures((ray, hit), r),
            },
{
    if ray.steps_left() == 0 {
        return absorbed;
    }
    let hit = query(ray.ray());
    match hit {
        Some(hit) => shade(ray, hit),
        None => background,
    }
}

/// One light's step of local illumination: `visible` decides whether the
/// light reaches the point; a visible light moves the color from `before`
/// to `after` by `add_light`, a blocked one leaves it as it was.
pub open spec fn light_step<L, C, V: Fn(&L) -> bool, A: Fn(C, &L) -> C>(
    visible: V,
    add_light: A,
    light: L,
    before: C,
    after: C,
) -> bool {
    exists|seen: bool|
        #[trigger] visible.ensures((&light,), seen) && if seen {
            add_light.ensures((before, &light), after)
        } else {
            after == before
        }
}

/// `steps` are the colors of local illumination from `base` over `lights`:
/// `steps[0]` is `base` and `steps[i + 1]` follows from `steps[i]` by the
/// step of light `i`.
pub open spec fn lighting_steps<L, C, V: Fn(&L) -> bool, A: Fn(C, &L) -> C>(
    visible: V,
    add_light: A,
    lights: Seq<L>,
    base: C,
    steps: Seq<C>,
) -> bool {
    &&& steps.len() == lights.len() + 1
    &&& steps[0] == base
    &&& forall|i: int|
        0 <= i < lights.len() ==> light_step(visible, add_light, lights[i], steps[i], #[trigger] steps[i + 1])
}

/// Local illumination at a surface point: starting from `base` (the
/// ambient term), takes the lights in order and adds the contribution of
/// each one that `visible` lets through; an occluded light adds nothing.
/// The colors after each light are `steps`, from `base` to the result.
pub fn illuminate<L, C, V: Fn(&L) -> bool, A: Fn(C, &L) -> C>(
    lights: &Vec<L>,
    base: C,
    visible: V,
    add_light: A,
) -> (r: C)
    requires
        forall|l: &L| visible.requires((l,)),
        forall|c: C, l: &L| add_light.requires((c, l)),
    ensures
        exists|steps: Seq<C>| lighting_steps(visible, add_light, lights@, base, steps) && steps.last() == r,
{
    let mut color = base;
    let ghost mut steps: Seq<C> = seq![base];
    let mut i: usize = 0;
    while i < lights.len()
        invariant
            i <= lights@.len(),
            steps.len() == i + 1,
            steps[0] == base,
            steps.last() == color,
            forall|l: &L| visible.requires((l,)),
            forall|c: C, l: &L| add_light.requires((c, l)),
            forall|k: int|
                0 <= k < i ==> light_step(visible, add_light, lights@[k], steps[k], #[trigger] steps[k + 1]),
        decreases lights@.len() - i,
    {
        let light = &lights[i];
        let seen = visible(light);
        let ghost before = color;
        if seen {
            color = add_light(color, light);
        }
        proof {
            assert(light_step(visible, add_light, lights@[i as int], before, color));
            let prev = steps;
            steps = steps.push(color);
            assert forall|k: int|
                0 <= k < i + 1 implies light_step(
                    visible,
                    add_light,
                    lights@[k],
                    steps[k],
                    #[trigger] steps[k + 1],
                ) by {
                if k < i {
                    assert(steps[k] == prev[k] && steps[k + 1] == prev[k + 1]);
                }
            }
        }
        i += 1;
    }
    assert(lighting_steps(visible, add_light, lights@, base, steps));
    color
}

/// Shadowing: a light that `visible` can only report as blocked (an opaque
/// object stands between it and the point) contributes nothing, and the
/// color coming out of its step of `illuminate` is the one that went in.
pub proof fn lemma_blocked_light_adds_nothing<L, C, V: Fn(&L) -> bool, A: Fn(C, &L) -> C>(
    visible: V,
    add_light: A,
    light: L,
    before: C,
    after: C,
)
    requires
        light_step(visible, add_light, light, before, after),
        forall|seen: bool| #[trigger] visible.ensures((&light,), seen) ==> !seen,
    ensures
        after == before,
{
    let seen = choose|seen: bool|
        #[trigger] visible.ensures((&light,), seen) && if seen {
            add_light.ensures((before, &light), after)
        } else {
            after == before
        };
    assert(!seen);
}

/// `visible` gives one answer for each light.
pub open spec fn answers_once<L, V: Fn(&L) -> bool>(visible: V) -> bool {
    forall|l: L, a: bool, b: bool|
        #[trigger] visible.ensures((&l,), a) && #[trigger] visible.ensures((&l,), b) ==> a == b
}

/// `add_light` gives one color for each color and light.
pub open spec fn adds_once<L, C, A: Fn(C, &L) -> C>(add_light: A) -> bool {
    forall|c: C, l: L, x: C, y: C|
        #[trigger] add_light.ensures((c, &l), x) && #[trigger] add_light.ensures((c, &l), y) ==> x == y
}

/// With deterministic closures one light's step has one outcome.
proof fn lemma_light_step_unique<L, C, V: Fn(&L) -> bool, A: Fn(C, &L) -> C>(
    visible: V,
    add_light: A,
    light: L,
    before: C,
    x: C,
    y: C,
)
    requires
        answers_once(visible),
        adds_once(add_light),
        light_step(visible, add_light, light, before, x),
        light_step(visible, add_light, light, before, y),
    ensures
        x == y,
{
    let sx = choose|seen: bool|
        #[trigger] visible.ensures((&light,), seen) && if seen {
            add_light.ensures((before, &light), x)
        } else {
            x == before
        };
    let sy = choose|seen: bool|
        #[trigger] visible.ensures((&light,), seen) && if seen {
            add_light.ensures((before, &light), y)
        } else {
            y == before
        };
    assert(sx == sy);
}

/// Before the removed light both runs agree.
proof fn lemma_prefix_agrees<L, C, V: Fn(&L) -> bool, A: Fn(C, &L) -> C>(
    visible: V,
    add_light: A,
    lights: Seq<L>,
    j: int,
    base: C,
    steps: Seq<C>,
    rest: Seq<C>,
    k: int,
)
    requires
        answers_once(visible),
        adds_once(add_light),
        0 <= j < lights.len(),
        0 <= k <= j,
        lighting_steps(visible, add_light, lights, base, steps),
        lighting_steps(visible, add_light, lights.remove(j), base, rest),
    ensures
        steps[k] == rest[k],
    decreases k,
{
    if k > 0 {
        lemma_prefix_agrees(visible, add_light, lights, j, base, steps, rest, k - 1);
        let i = k - 1;
        assert(lights.remove(j)[i] == lights[i]);
        assert(light_step(visible, add_light, lights[i], steps[i], steps[i + 1]));
        assert(light_step(visible, add_light, lights.remove(j)[i], rest[i], rest[i + 1]));
        lemma_light_step_unique(visible, add_light, lights[i], steps[i], steps[i + 1], rest[i + 1]);
    }
}

/// From the removed light on, the run with it is one step behind.
proof fn lemma_suffix_agrees<L, C, V: Fn(&L) -> bool, A: Fn(C, &L) -> C>(
    visible: V,
    add_light: A,
    lights: Seq<L>,
    j: int,
    base: C,
    steps: Seq<C>,
    rest: Seq<C>,
    k: int,
)
    requires
        answers_once(visible),
        adds_once(add_light),
        0 <= j < lights.len(),
        j <= k < lights.len(),
        forall|seen: bool| #[trigger] visible.ensures((&lights[j],), seen) ==> !seen,
        lighting_steps(visible, add_light, lights, base, steps),
        lighting_steps(visible, add_light, lights.remove(j), base, rest),
    ensures
        steps[k + 1] == rest[k],
    decreases k - j,
{
    if k == j {
        lemma_prefix_agrees(visible, add_light, lights, j, base, steps, rest, j);
        assert(light_step(visible, add_light, lights[j], steps[j], steps[j + 1]));
        lemma_blocked_light_adds_nothing(visible, add_light, lights[j], steps[j], steps[j + 1]);
    } else {
        lemma_suffix_agrees(visible, add_light, lights, j, base, steps, rest, k - 1);
        let i = k - 1;
        assert(lights.remove(j)[i] == lights[k]);
        assert(light_step(visible, add_light, lights[k], steps[k], steps[k + 1]));
        assert(light_step(visible, add_light, lights.remove(j)[i], rest[i], rest[i + 1]));
        lemma_light_step_unique(visible, add_light, lights[k], steps[k], steps[k + 1], rest[k]);
    }
}

/// Shadowing, for deterministic visibility and light terms: where light `j`
/// is blocked from the point, illuminating with all `lights` ends in the
/// same color as illuminating with light `j` left out, from the same
/// ambient `base`. The blocked light's diffuse and specular share is gone
/// and nothing else changes.
pub proof fn lemma_blocked_light_removable<L, C, V: Fn(&L) -> bool, A: Fn(C, &L) -> C>(
    visible: V,
    add_light: A,
    lights: Seq<L>,
    j: int,
    base: C,
    steps: Seq<C>,
    rest: Seq<C>,
)
    requires
        answers_once(visible),
        adds_once(add_light),
        0 <= j < lights.len(),
        forall|seen: bool| #[trigger] visible.ensures((&lights[j],), seen) ==> !seen,
        lighting_steps(visible, add_light, lights, base, steps),
        lighting_steps(visible, add_light, lights.remove(j), base, rest),
    ensures
        steps.last() == rest.last(),
{
    lemma_suffix_agrees(visible, add_light, lights, j, base, steps, rest, lights.len() - 1);
}

} // verus!
