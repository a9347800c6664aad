use vstd::prelude::*;

use crate::filter::{chosen_source, Filter, StageInput, UniformSource};
use crate::keyed::{
    has_name, lemma_first_is_only, lemma_push_names, lookup, position_of, position_of_spec,
    unique_names, upsert,
};
use crate::sampling::{BufferFormat, SamplerFilters};
use crate::stage::{Stage, resolves_to};

verus! {

/// The two textures a stage renders into: the front one holds its latest completed output,
/// the back one is the target of its next draw.
pub struct RenderBuffer<T> {
    textures: Vec<T>,
    resolution: (u32, u32),
}

impl<T> RenderBuffer<T> {
    pub closed spec fn spec_textures(&self) -> Seq<T> {
        self.textures@
    }

    pub closed spec fn spec_resolution(&self) -> (u32, u32) {
        self.resolution
    }

    pub open spec fn wf(&self) -> bool {
        self.spec_textures().len() == 2
    }

    pub open spec fn spec_front(&self) -> T {
        self.spec_textures()[0]
    }

    pub open spec fn spec_back(&self) -> T {
        self.spec_textures()[1]
    }

    pub fn new(front: T, back: T, resolution: (u32, u32)) -> (r: Self)
        ensures
            r.wf(),
            r.spec_front() == front,
            r.spec_back() == back,
            r.spec_resolution() == resolution,
    {
        let mut textures: Vec<T> = Vec::new();
        textures.push(front);
        textures.push(back);
        RenderBuffer { textures, resolution }
    }

    pub fn front(&self) -> (r: &T)
        requires
            self.wf(),
        ensures
            *r == self.spec_front(),
    {
        &self.textures[0]
    }

    pub fn back(&self) -> (r: &T)
        requires
            self.wf(),
        ensures
            *r == self.spec_back(),
    {
        &self.textures[1]
    }

    pub fn get_resolution(&self) -> (r: (u32, u32))
        ensures
            r == self.spec_resolution(),
    {
        self.resolution
    }

    /// Promotes the texture just drawn into to the front; the old front becomes the target
    /// of the next draw.
    pub fn rotate(&mut self)
        requires
            old(self).wf(),
        ensures
            final(self).wf(),
            final(self).spec_front() == old(self).spec_back(),
            final(self).spec_back() == old(self).spec_front(),
            final(self).spec_resolution() == old(self).spec_resolution(),
    {
        let drawn = self.textures.remove(0);
        self.textures.push(drawn);
    }
}

/// Which texture of the pair is in front after `n` rotations: the first one after an even
/// number, the second after an odd number.
pub open spec fn front_after<T>(first: T, second: T, n: nat) -> T {
    if n % 2 == 0 {
        first
    } else {
        second
    }
}

/// Each buffer of the sequence is the rotation of the one before it.
pub open spec fn rotation_chain<T>(bs: Seq<RenderBuffer<T>>) -> bool {
    forall|k: int|
        0 <= k < bs.len() - 1 ==> #[trigger] bs[k + 1].spec_front() == bs[k].spec_back()
            && bs[k + 1].spec_back() == bs[k].spec_front()
}

/// After `n` draws, each followed by a rotation, the front texture alternates with the
/// parity of `n`, counted from the pair's orientation before the first draw.
pub proof fn lemma_front_alternates<T>(bs: Seq<RenderBuffer<T>>, n: nat)
    requires
        rotation_chain(bs),
        n < bs.len(),
    ensures
        bs[n as int].spec_front() == front_after(bs[0].spec_front(), bs[0].spec_back(), n),
        bs[n as int].spec_back() == front_after(bs[0].spec_back(), bs[0].spec_front(), n),
    decreases n,
{
    if n > 0 {
        lemma_front_alternates(bs, (n - 1) as nat);
        assert(bs[(n - 1) + 1].spec_front() == bs[n - 1].spec_back());
    }
}

/// The resolution the render buffers of a graph at `resolution` are allocated at.
pub open spec fn buffer_resolution(resolution: (usize, usize)) -> (u32, u32) {
    (resolution.0 as u32, resolution.1 as u32)
}

/// Both textures of `b` were returned by `alloc` for the given format at `resolution`.
pub open spec fn allocated_by<T, E, L: Fn(BufferFormat, u32, u32) -> Result<T, E>>(
    alloc: L,
    b: RenderBuffer<T>,
    format: BufferFormat,
    resolution: (usize, usize),
) -> bool {
    let size = buffer_resolution(resolution);
    &&& b.wf()
    &&& b.spec_resolution() == size
    &&& alloc.ensures((format, size.0, size.1), Ok::<T, E>(b.spec_front()))
    &&& alloc.ensures((format, size.0, size.1), Ok::<T, E>(b.spec_back()))
}

/// Allocates the texture pair of one stage.
pub fn allocate_buffer<T, E, L: Fn(BufferFormat, u32, u32) -> Result<T, E>>(
    alloc: &L,
    format: BufferFormat,
    resolution: (usize, usize),
) -> (r: Result<RenderBuffer<T>, E>)
    requires
        forall|f: BufferFormat, w: u32, h: u32| alloc.requires((f, w, h)),
    ensures
        match r {
            Ok(b) => allocated_by(*alloc, b, format, resolution),
            Err(e) => alloc.ensures(
                (format, buffer_resolution(resolution).0, buffer_resolution(resolution).1),
                Err::<T, E>(e),
            ),
        },
{
    let width = resolution.0 as u32;
    let height = resolution.1 as u32;
    let front = match alloc(format, width, height) {
        Ok(t) => t,
        Err(e) => {
            return Err(e);
        },
    };
    let back = match alloc(format, width, height) {
        Ok(t) => t,
        Err(e) => {
            return Err(e);
        },
    };
    Ok(RenderBuffer::new(front, back, (width, height)))
}

/// Allocates a texture pair for each format, all or nothing.
pub fn allocate_buffers<T, E, L: Fn(BufferFormat, u32, u32) -> Result<T, E>>(
    alloc: &L,
    formats: &Vec<BufferFormat>,
    resolution: (usize, usize),
) -> (r: Result<Vec<RenderBuffer<T>>, E>)
    requires
        forall|f: BufferFormat, w: u32, h: u32| alloc.requires((f, w, h)),
    ensures
        match r {
            Ok(bs) => bs@.len() == formats@.len() && forall|i: int|
                0 <= i < bs@.len() ==> allocated_by(
                    *alloc,
                    #[trigger] bs@[i],
                    formats@[i],
                    resolution,
                ),
            Err(e) => exists|i: int|
                0 <= i < formats@.len() && alloc.ensures(
                    (
                        #[trigger] formats@[i],
                        buffer_resolution(resolution).0,
                        buffer_resolution(resolution).1,
                    ),
                    Err::<T, E>(e),
                ),
        },
{
    let mut buffers: Vec<RenderBuffer<T>> = Vec::new();
    let mut i: usize = 0;
    while i < formats.len()
        invariant
            i <= formats@.len(),
            buffers@.len() == i,
            forall|f: BufferFormat, w: u32, h: u32| alloc.requires((f, w, h)),
            forall|j: int|
                0 <= j < i ==> allocated_by(*alloc, #[trigger] buffers@[j], formats@[j], resolution),
        decreases formats@.len() - i,
    {
        match allocate_buffer(alloc, formats[i], resolution) {
            Ok(b) => {
                buffers.push(b);
            },
            Err(e) => {
                assert(0 <= i < formats@.len());
                return Err(e);
            },
        }
        i = i + 1;
    }
    Ok(buffers)
}

/// The render graph: the ordered stages, one render buffer per stage at the same position,
/// the stage drawn to the display, the filters the stages use, by name, and the uniforms
/// taken in from input providers.
pub struct ShaderView<T, P, V, A, M, U> {
    uniform_holder: Vec<(String, U)>,
    resolution: (usize, usize),
    dynamic: bool,
    filter_list: Vec<(String, Filter<P, U>)>,
    render_buffer_list: Vec<RenderBuffer<T>>,
    render_chain: Vec<Stage<V, A, M, U>>,
    final_stage: Stage<V, A, M, U>,
}

impl<T, P, V, A, M, U> ShaderView<T, P, V, A, M, U> {
    pub closed spec fn spec_uniforms(&self) -> Seq<(String, U)> {
        self.uniform_holder@
    }

    pub closed spec fn spec_resolution(&self) -> (usize, usize) {
        self.resolution
    }

    pub closed spec fn spec_dynamic(&self) -> bool {
        self.dynamic
    }

    pub closed spec fn spec_filters(&self) -> Seq<(String, Filter<P, U>)> {
        self.filter_list@
    }

    pub closed spec fn spec_buffers(&self) -> Seq<RenderBuffer<T>> {
        self.render_buffer_list@
    }

    pub closed spec fn spec_chain(&self) -> Seq<Stage<V, A, M, U>> {
        self.render_chain@
    }

    pub closed spec fn spec_final_stage(&self) -> Stage<V, A, M, U> {
        self.final_stage
    }

    /// One buffer per stage, each of two textures at the graph's resolution.
    pub open spec fn buffers_wf(&self) -> bool {
        &&& self.spec_buffers().len() == self.spec_chain().len()
        &&& forall|i: int|
            0 <= i < self.spec_buffers().len() ==> (#[trigger] self.spec_buffers()[i]).wf()
                && self.spec_buffers()[i].spec_resolution() == buffer_resolution(
                self.spec_resolution(),
            )
    }

    pub open spec fn wf(&self) -> bool {
        &&& self.buffers_wf()
        &&& forall|i: int|
            0 <= i < self.spec_chain().len() ==> (#[trigger] self.spec_chain()[i]).wf()
        &&& self.spec_final_stage().wf()
        &&& unique_names(self.spec_uniforms())
        &&& unique_names(self.spec_filters())
        &&& forall|i: int|
            0 <= i < self.spec_filters().len() ==> (#[trigger] self.spec_filters()[i]).1.wf()
    }

    /// Builds the graph, allocating the render buffers of every stage at `resolution`;
    /// fails with the first allocation error.
    pub fn new<E, L: Fn(BufferFormat, u32, u32) -> Result<T, E>>(
        resolution: (usize, usize),
        dynamic: bool,
        filters: Vec<(String, Filter<P, U>)>,
        render_chain: Vec<Stage<V, A, M, U>>,
        final_stage: Stage<V, A, M, U>,
        alloc: &L,
    ) -> (r: Result<Self, E>)
        requires
            unique_names(filters@),
            forall|i: int| 0 <= i < filters@.len() ==> (#[trigger] filters@[i]).1.wf(),
            forall|i: int| 0 <= i < render_chain@.len() ==> (#[trigger] render_chain@[i]).wf(),
            final_stage.wf(),
            forall|f: BufferFormat, w: u32, h: u32| alloc.requires((f, w, h)),
        ensures
            match r {
                Ok(v) => {
                    &&& v.wf()
                    &&& v.spec_resolution() == resolution
                    &&& v.spec_dynamic() == dynamic
                    &&& v.spec_filters() == filters@
                    &&& v.spec_uniforms().len() == 0
                    &&& v.spec_final_stage() == final_stage
                    &&& v.spec_chain().len() == render_chain@.len()
                    &&& forall|i: int|
                        0 <= i < render_chain@.len() ==> (#[trigger] v.spec_chain()[i]).same_but_flag(
                            &render_chain@[i],
                        ) && !v.spec_chain()[i].spec_recreate() && allocated_by(
                            *alloc,
                            v.spec_buffers()[i],
                            render_chain@[i].spec_format(),
                            resolution,
                        )
                },
                Err(e) => exists|i: int|
                    0 <= i < render_chain@.len() && alloc.ensures(
                        (
                            (#[trigger] render_chain@[i]).spec_format(),
                            buffer_resolution(resolution).0,
                            buffer_resolution(resolution).1,
                        ),
                        Err::<T, E>(e),
                    ),
            },
    {
        let formats = formats_of(&render_chain);
        let buffers = match allocate_buffers(alloc, &formats, resolution) {
            Ok(bs) => bs,
            Err(e) => {
                proof {
                    let size = buffer_resolution(resolution);
                    let i = choose|i: int|
                        0 <= i < formats@.len() && alloc.ensures(
                            (#[trigger] formats@[i], size.0, size.1),
                            Err::<T, E>(e),
                        );
                    assert(formats@[i] == render_chain@[i].spec_format());
                }
                return Err(e);
            },
        };
        let mut rest = render_chain;
        let mut chain: Vec<Stage<V, A, M, U>> = Vec::new();
        let ghost given = rest@;
        while rest.len() > 0
            invariant
                chain@.len() + rest@.len() == given.len(),
                forall|i: int|
                    0 <= i < rest@.len() ==> #[trigger] rest@[i] == given[chain@.len() + i],
                forall|i: int|
                    0 <= i < chain@.len() ==> (#[trigger] chain@[i]).same_but_flag(&given[i])
                        && !chain@[i].spec_recreate() && chain@[i].wf(),
                forall|i: int| 0 <= i < given.len() ==> (#[trigger] given[i]).wf(),
            decreases rest@.len(),
        {
            let mut stage = rest.remove(0);
            assert(stage == given[chain@.len() as int]);
            stage.buffers_recreated();
            chain.push(stage);
        }
        Ok(
            ShaderView {
                uniform_holder: Vec::new(),
                resolution,
                dynamic,
                filter_list: filters,
                render_buffer_list: buffers,
                render_chain: chain,
                final_stage,
            },
        )
    }

    pub fn get_render_chain(&self) -> (r: &Vec<Stage<V, A, M, U>>)
        ensures
            r@ == self.spec_chain(),
    {
        &self.render_chain
    }

    pub fn get_final_stage(&self) -> (r: &Stage<V, A, M, U>)
        ensures
            *r == self.spec_final_stage(),
    {
        &self.final_stage
    }

    pub fn get_render_buffers(&self) -> (r: &Vec<RenderBuffer<T>>)
        ensures
            r@ == self.spec_buffers(),
    {
        &self.render_buffer_list
    }

    pub fn get_filters(&self) -> (r: &Vec<(String, Filter<P, U>)>)
        ensures
            r@ == self.spec_filters(),
    {
        &self.filter_list
    }

    pub fn get_uniforms(&self) -> (r: &Vec<(String, U)>)
        ensures
            r@ == self.spec_uniforms(),
    {
        &self.uniform_holder
    }

    pub fn get_dynamic_resolution(&self) -> (r: bool)
        ensures
            r == self.spec_dynamic(),
    {
        self.dynamic
    }

    pub fn set_dynamic_resolution(&mut self, dynamic_resolution: bool)
        ensures
            final(self).spec_dynamic() == dynamic_resolution,
            final(self).spec_resolution() == old(self).spec_resolution(),
            final(self).spec_buffers() == old(self).spec_buffers(),
            final(self).spec_chain() == old(self).spec_chain(),
            final(self).spec_final_stage() == old(self).spec_final_stage(),
            final(self).spec_filters() == old(self).spec_filters(),
            final(self).spec_uniforms() == old(self).spec_uniforms(),
    {
        self.dynamic = dynamic_resolution;
    }

    pub fn get_resolution(&self) -> (r: (usize, usize))
        ensures
            r == self.spec_resolution(),
    {
        self.resolution
    }

    /// Takes the stage at `stage_index` out of the graph, with its render buffer.
    pub fn remove_render_stage(&mut self, stage_index: usize)
        requires
            old(self).wf(),
            stage_index < old(self).spec_chain().len(),
        ensures
            final(self).wf(),
            final(self).spec_chain() == old(self).spec_chain().remove(stage_index as int),
            final(self).spec_buffers() == old(self).spec_buffers().remove(stage_index as int),
            final(self).spec_resolution() == old(self).spec_resolution(),
            final(self).spec_dynamic() == old(self).spec_dynamic(),
            final(self).spec_final_stage() == old(self).spec_final_stage(),
            final(self).spec_filters() == old(self).spec_filters(),
            final(self).spec_uniforms() == old(self).spec_uniforms(),
    {
        self.render_buffer_list.remove(stage_index);
        self.render_chain.remove(stage_index);
        proof {
            let k = stage_index as int;
            assert forall|i: int| 0 <= i < self.spec_buffers().len() implies (
            #[trigger] self.spec_buffers()[i]).wf() && self.spec_buffers()[i].spec_resolution()
                == buffer_resolution(self.spec_resolution()) by {
                let j = if i < k { i } else { i + 1 };
                assert(self.spec_buffers()[i] == old(self).spec_buffers()[j]);
            }
            assert forall|i: int| 0 <= i < self.spec_chain().len() implies (
            #[trigger] self.spec_chain()[i]).wf() by {
                let j = if i < k { i } else { i + 1 };
                assert(self.spec_chain()[i] == old(self).spec_chain()[j]);
            }
        }
    }

    /// Moves the stage at `original_index`, with its render buffer, to `target_index`.
    pub fn move_render_stage(&mut self, original_index: usize, target_index: usize)
        requires
            old(self).wf(),
            original_index < old(self).spec_chain().len(),
            target_index < old(self).spec_chain().len(),
        ensures
            final(self).wf(),
            final(self).spec_chain() == old(self).spec_chain().remove(original_index as int).insert(
                target_index as int,
                old(self).spec_chain()[original_index as int],
            ),
            final(self).spec_buffers() == old(self).spec_buffers().remove(
                original_index as int,
            ).insert(target_index as int, old(self).spec_buffers()[original_index as int]),
            final(self).spec_resolution() == old(self).spec_resolution(),
            final(self).spec_dynamic() == old(self).spec_dynamic(),
            final(self).spec_final_stage() == old(self).spec_final_stage(),
            final(self).spec_filters() == old(self).spec_filters(),
            final(self).spec_uniforms() == old(self).spec_uniforms(),
    {
        let render_buffer = self.render_buffer_list.remove(original_index);
        self.render_buffer_list.insert(target_index, render_buffer);
        let render_stage = self.render_chain.remove(original_index);
        self.render_chain.insert(target_index, render_stage);
        proof {
            let k = original_index as int;
            let t = target_index as int;
            assert forall|i: int| 0 <= i < self.spec_buffers().len() implies (
            #[trigger] self.spec_buffers()[i]).wf() && self.spec_buffers()[i].spec_resolution()
                == buffer_resolution(self.spec_resolution()) by {
                let removed = old(self).spec_buffers().remove(k);
                if i < t {
                    assert(self.spec_buffers()[i] == removed[i]);
                } else if i > t {
                    assert(self.spec_buffers()[i] == removed[i - 1]);
                }
                if i != t {
                    let m = if i < t { i } else { i - 1 };
                    let j = if m < k { m } else { m + 1 };
                    assert(removed[m] == old(self).spec_buffers()[j]);
                }
            }
            assert forall|i: int| 0 <= i < self.spec_chain().len() implies (
            #[trigger] self.spec_chain()[i]).wf() by {
                let removed = old(self).spec_chain().remove(k);
                if i < t {
                    assert(self.spec_chain()[i] == removed[i]);
                } else if i > t {
                    assert(self.spec_chain()[i] == removed[i - 1]);
                }
                if i != t {
                    let m = if i < t { i } else { i - 1 };
                    let j = if m < k { m } else { m + 1 };
                    assert(removed[m] == old(self).spec_chain()[j]);
                }
            }
        }
    }

    /// Appends a stage, allocating its render buffer at the graph's resolution. On an
    /// allocation error the graph is left as it was.
    pub fn add_render_stage<E, L: Fn(BufferFormat, u32, u32) -> Result<T, E>>(
        &mut self,
        stage: Stage<V, A, M, U>,
        alloc: &L,
    ) -> (r: Result<(), E>)
        requires
            old(self).wf(),
            stage.wf(),
            forall|f: BufferFormat, w: u32, h: u32| alloc.requires((f, w, h)),
        ensures
            final(self).wf(),
            match r {
                Ok(()) => {
                    &&& final(self).spec_chain().len() == old(self).spec_chain().len() + 1
                    &&& final(self).spec_chain().drop_last() == old(self).spec_chain()
                    &&& final(self).spec_chain().last().same_but_flag(&stage)
                    &&& !final(self).spec_chain().last().spec_recreate()
                    &&& final(self).spec_buffers().drop_last() == old(self).spec_buffers()
                    &&& allocated_by(
                        *alloc,
                        final(self).spec_buffers().last(),
                        stage.spec_format(),
                        old(self).spec_resolution(),
                    )
                    &&& final(self).spec_resolution() == old(self).spec_resolution()
                    &&& final(self).spec_dynamic() == old(self).spec_dynamic()
                    &&& final(self).spec_final_stage() == old(self).spec_final_stage()
                    &&& final(self).spec_filters() == old(self).spec_filters()
                    &&& final(self).spec_uniforms() == old(self).spec_uniforms()
                },
                Err(e) => *final(self) == *old(self) && alloc.ensures(
                    (
                        stage.spec_format(),
                        buffer_resolution(old(self).spec_resolution()).0,
                        buffer_resolution(old(self).spec_resolution()).1,
                    ),
                    Err::<T, E>(e),
                ),
            },
    {
        let buffer = match allocate_buffer(alloc, stage.get_buffer_format(), self.resolution) {
            Ok(b) => b,
            Err(e) => {
                return Err(e);
            },
        };
        let mut stage = stage;
        stage.buffers_recreated();
        self.render_buffer_list.push(buffer);
        self.render_chain.push(stage);
        proof {
            assert(self.spec_chain().drop_last() =~= old(self).spec_chain());
            assert(self.spec_buffers().drop_last() =~= old(self).spec_buffers());
            assert forall|i: int| 0 <= i < self.spec_buffers().len() implies (
            #[trigger] self.spec_buffers()[i]).wf() && self.spec_buffers()[i].spec_resolution()
                == buffer_resolution(self.spec_resolution()) by {
                if i < old(self).spec_buffers().len() {
                    assert(self.spec_buffers()[i] == old(self).spec_buffers()[i]);
                }
            }
            assert forall|i: int| 0 <= i < self.spec_chain().len() implies (
            #[trigger] self.spec_chain()[i]).wf() by {
                if i < old(self).spec_chain().len() {
                    assert(self.spec_chain()[i] == old(self).spec_chain()[i]);
                }
            }
        }
        Ok(())
    }

    /// Puts `stage` at `stage_index` in place of the stage there, which is returned. The
    /// render buffer stays; a stage that asks for new buffers gets them at the next update.
    pub fn replace_render_stage(&mut self, stage_index: usize, stage: Stage<V, A, M, U>) -> (r:
        Stage<V, A, M, U>)
        requires
            old(self).wf(),
            stage.wf(),
            stage_index < old(self).spec_chain().len(),
        ensures
            final(self).wf(),
            r == old(self).spec_chain()[stage_index as int],
            final(self).spec_chain() == old(self).spec_chain().update(stage_index as int, stage),
            final(self).spec_buffers() == old(self).spec_buffers(),
            final(self).spec_resolution() == old(self).spec_resolution(),
            final(self).spec_dynamic() == old(self).spec_dynamic(),
            final(self).spec_final_stage() == old(self).spec_final_stage(),
            final(self).spec_filters() == old(self).spec_filters(),
            final(self).spec_uniforms() == old(self).spec_uniforms(),
    {
        let previous = self.render_chain.remove(stage_index);
        self.render_chain.insert(stage_index, stage);
        proof {
            assert(self.spec_chain() =~= old(self).spec_chain().update(stage_index as int, stage));
        }
        previous
    }

    /// Puts `stage` in place of the stage drawn to the display, which is returned.
    pub fn replace_final_stage(&mut self, stage: Stage<V, A, M, U>) -> (r: Stage<V, A, M, U>)
        requires
            old(self).wf(),
            stage.wf(),
        ensures
            final(self).wf(),
            r == old(self).spec_final_stage(),
            final(self).spec_final_stage() == stage,
            final(self).spec_chain() == old(self).spec_chain(),
            final(self).spec_buffers() == old(self).spec_buffers(),
            final(self).spec_resolution() == old(self).spec_resolution(),
            final(self).spec_dynamic() == old(self).spec_dynamic(),
            final(self).spec_filters() == old(self).spec_filters(),
            final(self).spec_uniforms() == old(self).spec_uniforms(),
    {
        let mut stage = stage;
        std::mem::swap(&mut self.final_stage, &mut stage);
        stage
    }

    /// Changes the output resolution. Unless resizing is enabled and `resolution` differs
    /// from the current one, nothing happens. Otherwise every render buffer is allocated anew
    /// at `resolution`, empty; if an allocation fails the graph is left as it was.
    pub fn set_resolution<E, L: Fn(BufferFormat, u32, u32) -> Result<T, E>>(
        &mut self,
        resolution: (usize, usize),
        alloc: &L,
    ) -> (r: Result<(), E>)
        requires
            old(self).wf(),
            forall|f: BufferFormat, w: u32, h: u32| alloc.requires((f, w, h)),
        ensures
            final(self).wf(),
            !old(self).spec_dynamic() || resolution == old(self).spec_resolution() ==> r is Ok
                && *final(self) == *old(self),
            r is Err ==> *final(self) == *old(self),
            r matches Err(e) ==> exists|i: int|
                0 <= i < old(self).spec_chain().len() && alloc.ensures(
                    (
                        (#[trigger] old(self).spec_chain()[i]).spec_format(),
                        buffer_resolution(resolution).0,
                        buffer_resolution(resolution).1,
                    ),
                    Err::<T, E>(e),
                ),
            old(self).spec_dynamic() && resolution != old(self).spec_resolution() && r is Ok ==> {
                &&& final(self).spec_resolution() == resolution
                &&& final(self).spec_buffers().len() == old(self).spec_chain().len()
                &&& forall|i: int|
                    0 <= i < old(self).spec_chain().len() ==> allocated_by(
                        *alloc,
                        #[trigger] final(self).spec_buffers()[i],
                        old(self).spec_chain()[i].spec_format(),
                        resolution,
                    )
                &&& final(self).spec_chain() == old(self).spec_chain()
                &&& final(self).spec_dynamic() == old(self).spec_dynamic()
                &&& final(self).spec_final_stage() == old(self).spec_final_stage()
                &&& final(self).spec_filters() == old(self).spec_filters()
                &&& final(self).spec_uniforms() == old(self).spec_uniforms()
            },
    {
        if (resolution.0 == self.resolution.0 && resolution.1 == self.resolution.1) || !self.dynamic {
            return Ok(());
        }
        let formats = formats_of(&self.render_chain);
        let buffers = match allocate_buffers(alloc, &formats, resolution) {
            Ok(bs) => bs,
            Err(e) => {
                proof {
                    let size = buffer_resolution(resolution);
                    let i = choose|i: int|
                        0 <= i < formats@.len() && alloc.ensures(
                            (#[trigger] formats@[i], size.0, size.1),
                            Err::<T, E>(e),
                        );
                    assert(formats@[i] == self.spec_chain()[i].spec_format());
                }
                return Err(e);
            },
        };
        self.resolution = resolution;
        self.render_buffer_list = buffers;
        Ok(())
    }

    /// Allocates a new render buffer for every stage that asks for one and clears its
    /// request; the other buffers stay. On an allocation error the graph is left as it was.
    pub fn prepare_buffers<E, L: Fn(BufferFormat, u32, u32) -> Result<T, E>>(
        &mut self,
        alloc: &L,
    ) -> (r: Result<(), E>)
        requires
            old(self).wf(),
            forall|f: BufferFormat, w: u32, h: u32| alloc.requires((f, w, h)),
        ensures
            final(self).wf(),
            r is Err ==> *final(self) == *old(self),
            r matches Err(e) ==> Self::allocation_failed(old(self), *alloc, e),
            r is Ok ==> Self::buffers_prepared(old(self), final(self), *alloc),
    {
        let ghost start = *self;
        let mut fresh: Vec<Option<RenderBuffer<T>>> = Vec::new();
        let mut i: usize = 0;
        while i < self.render_chain.len()
            invariant
                *self == start,
                start == *old(self),
                self.wf(),
                i <= self.spec_chain().len(),
                fresh@.len() == i,
                forall|f: BufferFormat, w: u32, h: u32| alloc.requires((f, w, h)),
                forall|j: int|
                    0 <= j < i ==> match #[trigger] fresh@[j] {
                        Some(b) => self.spec_chain()[j].spec_recreate() && allocated_by(
                            *alloc,
                            b,
                            self.spec_chain()[j].spec_format(),
                            self.spec_resolution(),
                        ),
                        None => !self.spec_chain()[j].spec_recreate(),
                    },
            decreases self.spec_chain().len() - i,
        {
            if self.render_chain[i].needs_new_buffers() {
                let format = self.render_chain[i].get_buffer_format();
                match allocate_buffer(alloc, format, self.resolution) {
                    Ok(b) => {
                        fresh.push(Some(b));
                    },
                    Err(e) => {
                        assert(self.spec_chain()[i as int].spec_recreate());
                        return Err(e);
                    },
                }
            } else {
                fresh.push(None);
            }
            i = i + 1;
        }
        let ghost all = fresh@;
        let mut k: usize = fresh.len();
        while k > 0
            invariant
                start == *old(self),
                start.wf(),
                k <= all.len(),
                fresh@ == all.subrange(0, k as int),
                all.len() == start.spec_chain().len(),
                self.spec_chain().len() == start.spec_chain().len(),
                self.spec_buffers().len() == start.spec_buffers().len(),
                self.spec_resolution() == start.spec_resolution(),
                self.spec_dynamic() == start.spec_dynamic(),
                self.spec_final_stage() == start.spec_final_stage(),
                self.spec_filters() == start.spec_filters(),
                self.spec_uniforms() == start.spec_uniforms(),
                forall|j: int|
                    0 <= j < all.len() ==> match #[trigger] all[j] {
                        Some(b) => start.spec_chain()[j].spec_recreate() && allocated_by(
                            *alloc,
                            b,
                            start.spec_chain()[j].spec_format(),
                            start.spec_resolution(),
                        ),
                        None => !start.spec_chain()[j].spec_recreate(),
                    },
                forall|j: int| 0 <= j < k ==> #[trigger] self.spec_chain()[j] == start.spec_chain()[j],
                forall|j: int|
                    0 <= j < k ==> #[trigger] self.spec_buffers()[j] == start.spec_buffers()[j],
                forall|j: int|
                    k <= j < all.len() ==> Self::stage_prepared(
                        start,
                        *self,
                        j,
                        *alloc,
                    ),
            decreases k,
        {
            k = k - 1;
            let ghost before = *self;
            let popped = fresh.pop();
            assert(popped == Some(all[k as int]));
            if let Some(b) = popped.unwrap() {
                self.render_buffer_list.set(k, b);
                let mut stage = self.render_chain.remove(k);
                stage.buffers_recreated();
                self.render_chain.insert(k, stage);
                assert(self.spec_chain() =~= before.spec_chain().update(k as int, stage));
                assert(self.spec_buffers() =~= before.spec_buffers().update(k as int, b));
            }
            proof {
                assert forall|j: int| 0 <= j < k implies self.spec_chain()[j] == start.spec_chain()[j]
                    && self.spec_buffers()[j] == start.spec_buffers()[j] by {
                    assert(self.spec_chain()[j] == before.spec_chain()[j]);
                    assert(self.spec_buffers()[j] == before.spec_buffers()[j]);
                }
                assert forall|j: int| k <= j < start.spec_chain().len() implies Self::stage_prepared(
                    start,
                    *self,
                    j,
                    *alloc,
                ) by {
                    if j > k {
                        assert(self.spec_chain()[j] == before.spec_chain()[j]);
                        assert(self.spec_buffers()[j] == before.spec_buffers()[j]);
                        assert(Self::stage_prepared(start, before, j, *alloc));
                    } else {
                        assert(before.spec_chain()[j] == start.spec_chain()[j]);
                        assert(before.spec_buffers()[j] == start.spec_buffers()[j]);
                        match all[j] {
                            Some(b) => {},
                            None => {
                                assert(self.spec_chain()[j] == before.spec_chain()[j]);
                                assert(self.spec_buffers()[j] == before.spec_buffers()[j]);
                            },
                        }
                    }
                }
            }
        }
        proof {
            assert forall|i: int| 0 <= i < self.spec_buffers().len() implies (
            #[trigger] self.spec_buffers()[i]).wf() && self.spec_buffers()[i].spec_resolution()
                == buffer_resolution(self.spec_resolution()) by {
                assert(Self::stage_prepared(start, *self, i, *alloc));
            }
            assert forall|i: int| 0 <= i < self.spec_chain().len() implies (
            #[trigger] self.spec_chain()[i]).wf() by {
                assert(Self::stage_prepared(start, *self, i, *alloc));
                assert(start.spec_chain()[i].wf());
            }
        }
        Ok(())
    }

    /// Runs the update phase of a frame: first the render buffers of every stage that asks
    /// for them are allocated (all or nothing, as `prepare_buffers` does), then every stage,
    /// in order, resolves its variables against `env` (as `Stage::update` does). Fails with
    /// the first allocation or conversion error.
    pub fn update<
        E,
        F: Fn(&V, &V, &V) -> V,
        G: Fn(&A, &V) -> Option<V>,
        C: Fn(&V) -> Result<U, E>,
        L: Fn(BufferFormat, u32, u32) -> Result<T, E>,
    >(
        &mut self,
        env: &Vec<(String, V)>,
        shift: &F,
        automate: &G,
        convert: &C,
        alloc: &L,
    ) -> (r: Result<(), E>)
        requires
            old(self).wf(),
            unique_names(env@),
            forall|x: &V, w: &V, y: &V| shift.requires((x, w, y)),
            forall|a: &A, x: &V| automate.requires((a, x)),
            forall|x: &V| convert.requires((x,)),
            forall|f: BufferFormat, w: u32, h: u32| alloc.requires((f, w, h)),
        ensures
            final(self).wf(),
            final(self).spec_chain().len() == old(self).spec_chain().len(),
            final(self).spec_resolution() == old(self).spec_resolution(),
            final(self).spec_dynamic() == old(self).spec_dynamic(),
            final(self).spec_final_stage() == old(self).spec_final_stage(),
            final(self).spec_filters() == old(self).spec_filters(),
            final(self).spec_uniforms() == old(self).spec_uniforms(),
            r matches Err(e) ==> Self::allocation_failed(old(self), *alloc, e) || exists|
                i: int,
                j: int,
                v: V,
            |
                0 <= i < old(self).spec_chain().len() && 0 <= j < old(
                    self,
                ).spec_chain()[i].spec_variables().len() && #[trigger] resolves_to(
                    old(self).spec_chain()[i].spec_variables()[j].1,
                    env@,
                    *shift,
                    *automate,
                    Some(v),
                ) && convert.ensures((&v,), Err::<U, E>(e)),
            r is Ok ==> Self::frame_updated(
                old(self),
                final(self),
                env@,
                *shift,
                *automate,
                *convert,
                *alloc,
            ),
    {
        match self.prepare_buffers(alloc) {
            Ok(()) => {},
            Err(e) => {
                return Err(e);
            },
        }
        let ghost mid = *self;
        let mut i: usize = 0;
        while i < self.render_chain.len()
            invariant
                mid.wf(),
                Self::buffers_prepared(old(self), &mid, *alloc),
                self.wf(),
                i <= self.spec_chain().len(),
                unique_names(env@),
                forall|x: &V, w: &V, y: &V| shift.requires((x, w, y)),
                forall|a: &A, x: &V| automate.requires((a, x)),
                forall|x: &V| convert.requires((x,)),
                self.spec_chain().len() == mid.spec_chain().len(),
                self.spec_buffers() == mid.spec_buffers(),
                self.spec_resolution() == mid.spec_resolution(),
                self.spec_dynamic() == mid.spec_dynamic(),
                self.spec_final_stage() == mid.spec_final_stage(),
                self.spec_filters() == mid.spec_filters(),
                self.spec_uniforms() == mid.spec_uniforms(),
                forall|j: int|
                    i <= j < self.spec_chain().len() ==> #[trigger] self.spec_chain()[j]
                        == mid.spec_chain()[j],
                forall|j: int|
                    0 <= j < i ==> !(#[trigger] self.spec_chain()[j]).spec_recreate()
                        && Stage::updated_from(
                        &self.spec_chain()[j],
                        &mid.spec_chain()[j],
                        env@,
                        *shift,
                        *automate,
                        *convert,
                    ),
            decreases self.spec_chain().len() - i,
        {
            let ghost before = *self;
            let mut stage = self.render_chain.remove(i);
            assert(stage == mid.spec_chain()[i as int]);
            assert(Self::stage_prepared(*old(self), mid, i as int, *alloc));
            let result = stage.update(env, shift, automate, convert);
            self.render_chain.insert(i, stage);
            proof {
                assert(self.spec_chain() =~= before.spec_chain().update(i as int, stage));
                assert forall|j: int| 0 <= j < self.spec_chain().len() implies (
                #[trigger] self.spec_chain()[j]).wf() by {
                    if j != i {
                        assert(self.spec_chain()[j] == before.spec_chain()[j]);
                    }
                }
            }
            match result {
                Ok(()) => {},
                Err(e) => {
                    proof {
                        let ghost st = mid.spec_chain()[i as int];
                        let (j, v) = choose|j: int, v: V|
                            0 <= j < st.spec_variables().len() && #[trigger] resolves_to(
                                st.spec_variables()[j].1,
                                env@,
                                *shift,
                                *automate,
                                Some(v),
                            ) && convert.ensures((&v,), Err::<U, E>(e));
                        assert(mid.spec_chain()[i as int].same_but_flag(&old(self).spec_chain()[i as int]));
                        assert(old(self).spec_chain()[i as int].spec_variables()[j] == st.spec_variables()[j]);
                        assert(resolves_to(
                            old(self).spec_chain()[i as int].spec_variables()[j].1,
                            env@,
                            *shift,
                            *automate,
                            Some(v),
                        ));
                    }
                    return Err(e);
                },
            }
            proof {
                assert forall|j: int|
                    0 <= j < i + 1 implies !(#[trigger] self.spec_chain()[j]).spec_recreate()
                    && Stage::updated_from(
                    &self.spec_chain()[j],
                    &mid.spec_chain()[j],
                    env@,
                    *shift,
                    *automate,
                    *convert,
                ) by {
                    if j < i {
                        assert(self.spec_chain()[j] == before.spec_chain()[j]);
                    }
                }
                assert forall|j: int| i + 1 <= j < self.spec_chain().len() implies #[trigger] self.spec_chain()[j]
                    == mid.spec_chain()[j] by {
                    assert(self.spec_chain()[j] == before.spec_chain()[j]);
                }
            }
            i = i + 1;
        }
        proof {
            assert forall|i: int| 0 <= i < old(self).spec_chain().len() implies Self::buffer_prepared(
                *old(self),
                *self,
                i,
                *alloc,
            ) && !self.spec_chain()[i].spec_recreate() && Stage::updated_from(
                &self.spec_chain()[i],
                &(#[trigger] old(self).spec_chain()[i]),
                env@,
                *shift,
                *automate,
                *convert,
            ) by {
                assert(Self::stage_prepared(*old(self), mid, i, *alloc));
                assert(self.spec_buffers()[i] == mid.spec_buffers()[i]);
                assert(!self.spec_chain()[i].spec_recreate());
                Stage::lemma_updated_from_any_flag(
                    &self.spec_chain()[i],
                    &mid.spec_chain()[i],
                    &old(self).spec_chain()[i],
                    env@,
                    *shift,
                    *automate,
                    *convert,
                );
            }
            assert(Self::frame_updated(
                old(self),
                self,
                env@,
                *shift,
                *automate,
                *convert,
                *alloc,
            ));
        }
        Ok(())
    }

    /// Some stage of the graph, or the final stage, reads the source named `n` with
    /// mipmaps.
    pub open spec fn spec_needs_mipmaps(&self, n: Seq<char>) -> bool {
        ||| exists|j: int|
            0 <= j < self.spec_chain().len() && stage_samples_with_mipmaps(
                #[trigger] self.spec_chain()[j],
                n,
            )
        ||| stage_samples_with_mipmaps(self.spec_final_stage(), n)
    }

    /// Whether a texture named `name`, a stage output or an input value, must carry mipmaps
    /// because some stage samples it with them.
    pub fn needs_mipmaps(&self, name: &String) -> (r: bool)
        ensures
            r == self.spec_needs_mipmaps(name@),
    {
        let mut j: usize = 0;
        while j < self.render_chain.len()
            invariant
                j <= self.spec_chain().len(),
                forall|k: int|
                    0 <= k < j ==> !stage_samples_with_mipmaps(#[trigger] self.spec_chain()[k], name@),
            decreases self.spec_chain().len() - j,
        {
            if samples_with_mipmaps(&self.render_chain[j], name) {
                assert(stage_samples_with_mipmaps(self.spec_chain()[j as int], name@));
                return true;
            }
            j = j + 1;
        }
        samples_with_mipmaps(&self.final_stage, name)
    }

    /// Stores a value taken in from an input provider under `name`, replacing the value an
    /// earlier frame stored there.
    pub fn ingest(&mut self, name: String, value: U)
        requires
            old(self).wf(),
        ensures
            final(self).wf(),
            forall|n: Seq<char>|
                #[trigger] lookup(final(self).spec_uniforms(), n) == if n == name@ {
                    Some(value)
                } else {
                    lookup(old(self).spec_uniforms(), n)
                },
            final(self).spec_chain() == old(self).spec_chain(),
            final(self).spec_buffers() == old(self).spec_buffers(),
            final(self).spec_resolution() == old(self).spec_resolution(),
            final(self).spec_dynamic() == old(self).spec_dynamic(),
            final(self).spec_final_stage() == old(self).spec_final_stage(),
            final(self).spec_filters() == old(self).spec_filters(),
    {
        upsert(&mut self.uniform_holder, name, value);
    }

    /// What the stage's input bound to the uniform `n` resolves to: the front texture of the
    /// last stage named as its source; else the graph's uniform of that name; else, as for a
    /// uniform with no input, the stage's own uniform named `n`.
    pub open spec fn expected_input(&self, stage: Stage<V, A, M, U>, n: Seq<char>) -> Option<
        StageInput,
    > {
        match lookup(stage.spec_inputs(), n) {
            Some(sampler) => match last_named(self.spec_chain(), sampler.source()) {
                Some(j) => Some(
                    StageInput::Target { stage: j as usize, filters: sampler.spec_filters() },
                ),
                None => match position_of_spec(self.spec_uniforms(), sampler.source()) {
                    Some(k) => Some(
                        StageInput::Environment {
                            index: k as usize,
                            filters: sampler.spec_filters(),
                        },
                    ),
                    None => variable_input(stage, n),
                },
            },
            None => variable_input(stage, n),
        }
    }

    /// Resolves the inputs and variables of a stage into the values bound to its uniforms,
    /// by the precedence `expected_input` gives: another stage's output, then a value taken
    /// in from the providers, then the stage's own variable.
    pub fn stage_inputs(&self, stage: &Stage<V, A, M, U>) -> (r: Vec<(String, StageInput)>)
        requires
            self.wf(),
            stage.wf(),
        ensures
            unique_names(r@),
            forall|i: int|
                0 <= i < r@.len() ==> Some(r@[i].1) == self.expected_input(
                    *stage,
                    #[trigger] r@[i].0@,
                ),
            forall|n: Seq<char>| #[trigger]
                self.expected_input(*stage, n) is Some ==> has_name(r@, n),
    {
        let inputs = stage.get_input_map();
        let variables = stage.get_uniform_list();
        let mut r: Vec<(String, StageInput)> = Vec::new();
        let mut j: usize = 0;
        while j < inputs.len()
            invariant
                self.wf(),
                stage.wf(),
                inputs@ == stage.spec_inputs(),
                variables@ == stage.spec_uniforms(),
                j <= inputs@.len(),
                unique_names(r@),
                forall|i: int|
                    0 <= i < r@.len() ==> Some(r@[i].1) == self.expected_input(
                        *stage,
                        #[trigger] r@[i].0@,
                    ),
                forall|k: int|
                    0 <= k < j && self.expected_input(*stage, #[trigger] inputs@[k].0@) is Some
                        ==> has_name(r@, inputs@[k].0@),
            decreases inputs@.len() - j,
        {
            let uniform_name = &inputs[j].0;
            let sampler = &inputs[j].1;
            proof {
                lemma_first_is_only(inputs@, uniform_name@, j as int);
            }
            let ghost before = r@;
            let found = position_of(&r, uniform_name);
            if let Some(p) = found {
                assert(has_name(r@, r@[p as int].0@));
            } else {
                let source = sampler.source_name();
                let filters = sampler.filters();
                let entry = match find_last_named(&self.render_chain, source) {
                    Some(t) => Some(StageInput::Target { stage: t, filters }),
                    None => match position_of(&self.uniform_holder, source) {
                        Some(k) => {
                            proof {
                                lemma_first_is_only(self.spec_uniforms(), source@, k as int);
                            }
                            Some(StageInput::Environment { index: k, filters })
                        },
                        None => match position_of(variables, uniform_name) {
                            Some(k) => {
                                proof {
                                    lemma_first_is_only(variables@, uniform_name@, k as int);
                                }
                                Some(StageInput::Variable { index: k })
                            },
                            None => None,
                        },
                    },
                };
                if let Some(e) = entry {
                    r.push((uniform_name.clone(), e));
                    proof {
                        lemma_push_names(before, r@[r@.len() - 1]);
                    }
                }
            }
            j = j + 1;
        }
        let mut k: usize = 0;
        while k < variables.len()
            invariant
                self.wf(),
                stage.wf(),
                inputs@ == stage.spec_inputs(),
                variables@ == stage.spec_uniforms(),
                k <= variables@.len(),
                unique_names(r@),
                forall|i: int|
                    0 <= i < r@.len() ==> Some(r@[i].1) == self.expected_input(
                        *stage,
                        #[trigger] r@[i].0@,
                    ),
                forall|m: int|
                    0 <= m < inputs@.len() && self.expected_input(*stage, #[trigger] inputs@[m].0@)
                        is Some ==> has_name(r@, inputs@[m].0@),
                forall|m: int| 0 <= m < k ==> has_name(r@, #[trigger] variables@[m].0@),
            decreases variables@.len() - k,
        {
            let name = &variables[k].0;
            let ghost before = r@;
            let found = position_of(&r, name);
            if let Some(p) = found {
                assert(has_name(r@, r@[p as int].0@));
            } else {
                proof {
                    lemma_first_is_only(variables@, name@, k as int);
                    if has_name(inputs@, name@) {
                        let m = choose|m: int| 0 <= m < inputs@.len() && inputs@[m].0@ == name@;
                        lemma_first_is_only(inputs@, name@, m);
                        assert(self.expected_input(*stage, inputs@[m].0@) is Some);
                    }
                }
                r.push((name.clone(), StageInput::Variable { index: k }));
                proof {
                    lemma_push_names(before, r@[r@.len() - 1]);
                }
            }
            k = k + 1;
        }
        proof {
            assert forall|n: Seq<char>| #[trigger]
                self.expected_input(*stage, n) is Some implies has_name(r@, n) by {
                if has_name(inputs@, n) {
                    let m = choose|m: int| 0 <= m < inputs@.len() && inputs@[m].0@ == n;
                    assert(self.expected_input(*stage, inputs@[m].0@) is Some);
                } else {
                    assert(lookup(inputs@, n) is None);
                    let m = choose|m: int| 0 <= m < variables@.len() && variables@[m].0@ == n;
                    assert(has_name(r@, variables@[m].0@));
                }
            }
        }
        r
    }

    /// The source a draw of `stage` with `filter` gives the uniform `n`: the stage's bound
    /// input of that name if there is one, else the filter's own uniform of that name.
    pub open spec fn plan_source(
        &self,
        stage: Stage<V, A, M, U>,
        filter: Filter<P, U>,
        n: Seq<char>,
    ) -> Option<UniformSource> {
        match self.expected_input(stage, n) {
            Some(x) => Some(UniformSource::Input(x)),
            None => match position_of_spec(filter.spec_uniforms(), n) {
                Some(d) => Some(UniformSource::Default(d as usize)),
                None => None,
            },
        }
    }

    /// Plans a draw of `stage`: the filter it names and, for each uniform that filter
    /// declares, where its value comes from (`plan_source`). `None` when the graph has no
    /// filter of that name, in which case the stage is not drawn.
    pub fn draw_plan(&self, stage: &Stage<V, A, M, U>) -> (r: Option<DrawPlan>)
        requires
            self.wf(),
            stage.wf(),
        ensures
            match r {
                None => !has_name(self.spec_filters(), stage.spec_filter()),
                Some(p) => {
                    &&& position_of_spec(self.spec_filters(), stage.spec_filter()) == Some(
                        p.filter as int,
                    )
                    &&& unique_names(p.uniforms@)
                    &&& forall|i: int|
                        0 <= i < p.uniforms@.len() ==> self.spec_filters()[p.filter as int].1.declares(
                            #[trigger] p.uniforms@[i].0@,
                        ) && Some(p.uniforms@[i].1) == self.plan_source(
                            *stage,
                            self.spec_filters()[p.filter as int].1,
                            p.uniforms@[i].0@,
                        )
                    &&& forall|n: Seq<char>|
                        self.spec_filters()[p.filter as int].1.declares(n) && #[trigger] self.plan_source(
                            *stage,
                            self.spec_filters()[p.filter as int].1,
                            n,
                        ) is Some ==> has_name(p.uniforms@, n)
                },
            },
    {
        match position_of(&self.filter_list, stage.get_filter()) {
            None => None,
            Some(f) => {
                proof {
                    lemma_first_is_only(self.spec_filters(), stage.spec_filter(), f as int);
                }
                let inputs = self.stage_inputs(stage);
                let filter = &self.filter_list[f].1;
                assert(filter.wf());
                let uniforms = filter.uniform_plan(&inputs);
                proof {
                    assert forall|n: Seq<char>|
                        chosen_source(inputs@, filter.spec_uniforms(), n) == #[trigger] self.plan_source(
                            *stage,
                            *filter,
                            n,
                        ) by {
                        if has_name(inputs@, n) {
                            let i = choose|i: int| 0 <= i < inputs@.len() && inputs@[i].0@ == n;
                            lemma_first_is_only(inputs@, n, i);
                            assert(Some(inputs@[i].1) == self.expected_input(*stage, inputs@[i].0@));
                        } else {
                            assert(!(self.expected_input(*stage, n) is Some));
                        }
                    }
                    assert forall|i: int| 0 <= i < uniforms@.len() implies filter.declares(
                        #[trigger] uniforms@[i].0@,
                    ) && Some(uniforms@[i].1) == self.plan_source(
                        *stage,
                        *filter,
                        uniforms@[i].0@,
                    ) by {
                        assert(chosen_source(inputs@, filter.spec_uniforms(), uniforms@[i].0@)
                            == self.plan_source(*stage, *filter, uniforms@[i].0@));
                    }
                    assert forall|n: Seq<char>|
                        filter.declares(n) && #[trigger] self.plan_source(*stage, *filter, n) is Some
                            implies has_name(uniforms@, n) by {
                        assert(chosen_source(inputs@, filter.spec_uniforms(), n)
                            == self.plan_source(*stage, *filter, n));
                    }
                }
                Some(DrawPlan { filter: f, uniforms })
            },
        }
    }

    /// Records that the stage at `stage_index` was drawn into its back texture: that texture
    /// becomes its front. Returns whether the new front must get mipmaps, because some stage
    /// samples this one with them.
    pub fn complete_stage_draw(&mut self, stage_index: usize) -> (r: bool)
        requires
            old(self).wf(),
            stage_index < old(self).spec_chain().len(),
        ensures
            final(self).wf(),
            final(self).spec_buffers()[stage_index as int].spec_front() == old(
                self,
            ).spec_buffers()[stage_index as int].spec_back(),
            final(self).spec_buffers()[stage_index as int].spec_back() == old(
                self,
            ).spec_buffers()[stage_index as int].spec_front(),
            final(self).spec_buffers()[stage_index as int].spec_resolution() == old(
                self,
            ).spec_buffers()[stage_index as int].spec_resolution(),
            final(self).spec_buffers().len() == old(self).spec_buffers().len(),
            forall|j: int|
                0 <= j < old(self).spec_buffers().len() && j != stage_index ==> (
                #[trigger] final(self).spec_buffers()[j]) == old(self).spec_buffers()[j],
            r == old(self).spec_needs_mipmaps(old(self).spec_chain()[stage_index as int].spec_name()),
            final(self).spec_chain() == old(self).spec_chain(),
            final(self).spec_resolution() == old(self).spec_resolution(),
            final(self).spec_dynamic() == old(self).spec_dynamic(),
            final(self).spec_final_stage() == old(self).spec_final_stage(),
            final(self).spec_filters() == old(self).spec_filters(),
            final(self).spec_uniforms() == old(self).spec_uniforms(),
    {
        let mipmaps = self.needs_mipmaps(self.render_chain[stage_index].get_name());
        let mut buffer = self.render_buffer_list.remove(stage_index);
        buffer.rotate();
        self.render_buffer_list.insert(stage_index, buffer);
        proof {
            assert(self.spec_buffers() =~= old(self).spec_buffers().update(
                stage_index as int,
                buffer,
            ));
        }
        mipmaps
    }

    /// Index of the first stage named `stage_name`, whose front texture a screenshot of that
    /// stage reads.
    pub fn screenshot_stage(&self, stage_name: &String) -> (r: Option<usize>)
        ensures
            match r {
                Some(i) => i < self.spec_chain().len() && self.spec_chain()[i as int].spec_name()
                    == stage_name@ && forall|j: int|
                    0 <= j < i ==> (#[trigger] self.spec_chain()[j]).spec_name() != stage_name@,
                None => forall|j: int|
                    0 <= j < self.spec_chain().len() ==> (#[trigger] self.spec_chain()[j]).spec_name()
                        != stage_name@,
            },
    {
        let mut i: usize = 0;
        while i < self.render_chain.len()
            invariant
                i <= self.spec_chain().len(),
                forall|j: int|
                    0 <= j < i ==> (#[trigger] self.spec_chain()[j]).spec_name() != stage_name@,
            decreases self.spec_chain().len() - i,
        {
            if *self.render_chain[i].get_name() == *stage_name {
                return Some(i);
            }
            i = i + 1;
        }
        None
    }

    /// The name and position of each stage, in order.
    pub fn stage_index_list(&self) -> (r: Vec<(String, usize)>)
        ensures
            r@.len() == self.spec_chain().len(),
            forall|i: int|
                0 <= i < r@.len() ==> (#[trigger] r@[i]).0@ == self.spec_chain()[i].spec_name()
                    && r@[i].1 == i,
    {
        let mut r: Vec<(String, usize)> = Vec::new();
        let mut i: usize = 0;
        while i < self.render_chain.len()
            invariant
                i <= self.spec_chain().len(),
                r@.len() == i,
                forall|j: int|
                    0 <= j < i ==> (#[trigger] r@[j]).0@ == self.spec_chain()[j].spec_name()
                        && r@[j].1 == j,
            decreases self.spec_chain().len() - i,
        {
            r.push((self.render_chain[i].get_name().clone(), i));
            i = i + 1;
        }
        r
    }

    /// Hands new shader texts to the filter at `filter_index`, as `Filter::update` does.
    pub fn update_filter<E, F: Fn(&String, &String) -> Result<P, E>>(
        &mut self,
        filter_index: usize,
        vertex_text: Option<String>,
        fragment_text: Option<String>,
        compile: F,
    ) -> (r: Result<bool, E>)
        requires
            old(self).wf(),
            filter_index < old(self).spec_filters().len(),
            forall|v: &String, f: &String| compile.requires((v, f)),
        ensures
            final(self).wf(),
            final(self).spec_filters().len() == old(self).spec_filters().len(),
            forall|j: int|
                0 <= j < old(self).spec_filters().len() && j != filter_index ==> (
                #[trigger] final(self).spec_filters()[j]) == old(self).spec_filters()[j],
            final(self).spec_filters()[filter_index as int].0 == old(
                self,
            ).spec_filters()[filter_index as int].0,
            r is Err ==> final(self).spec_filters()[filter_index as int].1.spec_program() == old(
                self,
            ).spec_filters()[filter_index as int].1.spec_program(),
            final(self).spec_filters()[filter_index as int].1.spec_uniforms() == old(
                self,
            ).spec_filters()[filter_index as int].1.spec_uniforms(),
            final(self).spec_filters()[filter_index as int].1.spec_inputs() == old(
                self,
            ).spec_filters()[filter_index as int].1.spec_inputs(),
            final(self).spec_chain() == old(self).spec_chain(),
            final(self).spec_buffers() == old(self).spec_buffers(),
            final(self).spec_resolution() == old(self).spec_resolution(),
            final(self).spec_dynamic() == old(self).spec_dynamic(),
            final(self).spec_final_stage() == old(self).spec_final_stage(),
            final(self).spec_uniforms() == old(self).spec_uniforms(),
    {
        let (name, mut filter) = self.filter_list.remove(filter_index);
        let r = filter.update(vertex_text, fragment_text, compile);
        self.filter_list.insert(filter_index, (name, filter));
        proof {
            let entry = self.spec_filters()[filter_index as int];
            assert(self.spec_filters() =~= old(self).spec_filters().update(
                filter_index as int,
                entry,
            ));
            assert forall|a: int, b: int|
                0 <= a < self.spec_filters().len() && 0 <= b < self.spec_filters().len() && a
                    != b implies self.spec_filters()[a].0@ != self.spec_filters()[b].0@ by {
                assert(old(self).spec_filters()[a].0@ != old(self).spec_filters()[b].0@);
            }
            assert forall|j: int| 0 <= j < self.spec_filters().len() implies (
            #[trigger] self.spec_filters()[j]).1.wf() by {
                assert(old(self).spec_filters()[j].1.wf());
            }
        }
        r
    }

    /// Sets one of the own uniforms of the filter at `filter_index`, as
    /// `Filter::set_uniform` does.
    pub fn set_filter_uniform(
        &mut self,
        filter_index: usize,
        name: String,
        value: U,
        sampling: Option<SamplerFilters>,
    )
        requires
            old(self).wf(),
            filter_index < old(self).spec_filters().len(),
        ensures
            final(self).wf(),
            final(self).spec_filters().len() == old(self).spec_filters().len(),
            forall|j: int|
                0 <= j < old(self).spec_filters().len() && j != filter_index ==> (
                #[trigger] final(self).spec_filters()[j]) == old(self).spec_filters()[j],
            final(self).spec_filters()[filter_index as int].0 == old(
                self,
            ).spec_filters()[filter_index as int].0,
            forall|n: Seq<char>|
                #[trigger] lookup(final(self).spec_filters()[filter_index as int].1.spec_uniforms(), n)
                    == if n == name@ {
                    Some((value, sampling))
                } else {
                    lookup(old(self).spec_filters()[filter_index as int].1.spec_uniforms(), n)
                },
            final(self).spec_filters()[filter_index as int].1.spec_program() == old(
                self,
            ).spec_filters()[filter_index as int].1.spec_program(),
            final(self).spec_filters()[filter_index as int].1.spec_inputs() == old(
                self,
            ).spec_filters()[filter_index as int].1.spec_inputs(),
            final(self).spec_chain() == old(self).spec_chain(),
            final(self).spec_buffers() == old(self).spec_buffers(),
            final(self).spec_resolution() == old(self).spec_resolution(),
            final(self).spec_dynamic() == old(self).spec_dynamic(),
            final(self).spec_final_stage() == old(self).spec_final_stage(),
            final(self).spec_uniforms() == old(self).spec_uniforms(),
    {
        let (filter_name, mut filter) = self.filter_list.remove(filter_index);
        filter.set_uniform(name, value, sampling);
        self.filter_list.insert(filter_index, (filter_name, filter));
        proof {
            let entry = self.spec_filters()[filter_index as int];
            assert(self.spec_filters() =~= old(self).spec_filters().update(
                filter_index as int,
                entry,
            ));
            assert forall|a: int, b: int|
                0 <= a < self.spec_filters().len() && 0 <= b < self.spec_filters().len() && a
                    != b implies self.spec_filters()[a].0@ != self.spec_filters()[b].0@ by {
                assert(old(self).spec_filters()[a].0@ != old(self).spec_filters()[b].0@);
            }
            assert forall|j: int| 0 <= j < self.spec_filters().len() implies (
            #[trigger] self.spec_filters()[j]).1.wf() by {
                assert(old(self).spec_filters()[j].1.wf());
            }
        }
    }

    /// `after` is `before` after the update phase of a frame: each stage has its buffers
    /// prepared and its variables resolved.
    pub open spec fn frame_updated<
        E,
        F: Fn(&V, &V, &V) -> V,
        G: Fn(&A, &V) -> Option<V>,
        C: Fn(&V) -> Result<U, E>,
        L: Fn(BufferFormat, u32, u32) -> Result<T, E>,
    >(
        before: &Self,
        after: &Self,
        env: Seq<(String, V)>,
        shift: F,
        automate: G,
        convert: C,
        alloc: L,
    ) -> bool {
        forall|i: int|
            0 <= i < before.spec_chain().len() ==> Self::buffer_prepared(*before, *after, i, alloc)
                && !after.spec_chain()[i].spec_recreate() && Stage::updated_from(
                &after.spec_chain()[i],
                &(#[trigger] before.spec_chain()[i]),
                env,
                shift,
                automate,
                convert,
            )
    }

    /// In `after`, the buffer at `i` is a new one if the stage at `i` of `before` asked for
    /// one, and the buffer of `before` otherwise.
    pub open spec fn buffer_prepared<E, L: Fn(BufferFormat, u32, u32) -> Result<T, E>>(
        before: Self,
        after: Self,
        i: int,
        alloc: L,
    ) -> bool {
        if before.spec_chain()[i].spec_recreate() {
            allocated_by(
                alloc,
                after.spec_buffers()[i],
                before.spec_chain()[i].spec_format(),
                before.spec_resolution(),
            )
        } else {
            after.spec_buffers()[i] == before.spec_buffers()[i]
        }
    }

    /// `e` is an error `alloc` returned for the buffers of a stage of `before` that asked for
    /// new ones.
    pub open spec fn allocation_failed<E, L: Fn(BufferFormat, u32, u32) -> Result<T, E>>(
        before: &Self,
        alloc: L,
        e: E,
    ) -> bool {
        exists|i: int|
            0 <= i < before.spec_chain().len() && (#[trigger] before.spec_chain()[i]).spec_recreate()
                && alloc.ensures(
                (
                    before.spec_chain()[i].spec_format(),
                    buffer_resolution(before.spec_resolution()).0,
                    buffer_resolution(before.spec_resolution()).1,
                ),
                Err::<T, E>(e),
            )
    }

    /// In `after`, the stage at `i` of `before` has new buffers if it asked for them, and
    /// keeps its buffers otherwise.
    pub open spec fn stage_prepared<E, L: Fn(BufferFormat, u32, u32) -> Result<T, E>>(
        before: Self,
        after: Self,
        i: int,
        alloc: L,
    ) -> bool {
        &&& after.spec_chain()[i].same_but_flag(&before.spec_chain()[i])
        &&& !after.spec_chain()[i].spec_recreate()
        &&& Self::buffer_prepared(before, after, i, alloc)
    }

    /// `after` is `before` with the buffers of every stage prepared.
    pub open spec fn buffers_prepared<E, L: Fn(BufferFormat, u32, u32) -> Result<T, E>>(
        before: &Self,
        after: &Self,
        alloc: L,
    ) -> bool {
        &&& after.spec_chain().len() == before.spec_chain().len()
        &&& forall|i: int|
            0 <= i < before.spec_chain().len() ==> #[trigger] Self::stage_prepared(
                *before,
                *after,
                i,
                alloc,
            )
        &&& after.spec_resolution() == before.spec_resolution()
        &&& after.spec_dynamic() == before.spec_dynamic()
        &&& after.spec_final_stage() == before.spec_final_stage()
        &&& after.spec_filters() == before.spec_filters()
        &&& after.spec_uniforms() == before.spec_uniforms()
    }
}

/// Index of the last stage of `chain` named `n`, if any.
pub open spec fn last_named<V, A, M, U>(chain: Seq<Stage<V, A, M, U>>, n: Seq<char>) -> Option<
    int,
> {
    if exists|j: int| 0 <= j < chain.len() && chain[j].spec_name() == n {
        Some(
            choose|j: int|
                0 <= j < chain.len() && chain[j].spec_name() == n && forall|k: int|
                    j < k < chain.len() ==> chain[k].spec_name() != n,
        )
    } else {
        None
    }
}

/// Finds the last stage of `chain` named `n`.
pub fn find_last_named<V, A, M, U>(chain: &Vec<Stage<V, A, M, U>>, n: &String) -> (r: Option<
    usize,
>)
    ensures
        r == match last_named(chain@, n@) {
            Some(j) => Some(j as usize),
            None => None::<usize>,
        },
        r matches Some(j) ==> j < chain@.len(),
{
    let mut i: usize = chain.len();
    while i > 0
        invariant
            i <= chain@.len(),
            forall|k: int| i <= k < chain@.len() ==> (#[trigger] chain@[k]).spec_name() != n@,
        decreases i,
    {
        i = i - 1;
        if *chain[i].get_name() == *n {
            proof {
                let j = i as int;
                let c = choose|c: int|
                    0 <= c < chain@.len() && chain@[c].spec_name() == n@ && forall|k: int|
                        c < k < chain@.len() ==> chain@[k].spec_name() != n@;
                assert(0 <= j < chain@.len() && chain@[j].spec_name() == n@ && forall|k: int|
                    j < k < chain@.len() ==> chain@[k].spec_name() != n@);
                if c < j {
                    assert(chain@[j].spec_name() != n@);
                }
                if c > j {
                    assert(chain@[c].spec_name() != n@);
                }
            }
            return Some(i);
        }
    }
    None
}

/// The filter and the uniform sources of one draw.
pub struct DrawPlan {
    pub filter: usize,
    pub uniforms: Vec<(String, UniformSource)>,
}

/// The stage reads, with mipmaps, an input whose source is named `n`.
pub open spec fn stage_samples_with_mipmaps<V, A, M, U>(
    stage: Stage<V, A, M, U>,
    n: Seq<char>,
) -> bool {
    exists|k: int|
        0 <= k < stage.spec_inputs().len() && (#[trigger] stage.spec_inputs()[k]).1 is Mipmaps
            && stage.spec_inputs()[k].1.source() == n
}

/// Whether the stage reads, with mipmaps, an input whose source is named `name`.
pub fn samples_with_mipmaps<V, A, M, U>(stage: &Stage<V, A, M, U>, name: &String) -> (r: bool)
    ensures
        r == stage_samples_with_mipmaps(*stage, name@),
{
    let inputs = stage.get_input_map();
    let mut k: usize = 0;
    while k < inputs.len()
        invariant
            inputs@ == stage.spec_inputs(),
            k <= inputs@.len(),
            forall|j: int|
                0 <= j < k ==> !((#[trigger] inputs@[j]).1 is Mipmaps && inputs@[j].1.source()
                    == name@),
        decreases inputs@.len() - k,
    {
        if inputs[k].1.uses_mipmaps() && *inputs[k].1.source_name() == *name {
            return true;
        }
        k = k + 1;
    }
    false
}

/// The stage's own uniform named `n`, as a draw input.
pub open spec fn variable_input<V, A, M, U>(stage: Stage<V, A, M, U>, n: Seq<char>) -> Option<
    StageInput,
> {
    match position_of_spec(stage.spec_uniforms(), n) {
        Some(k) => Some(StageInput::Variable { index: k as usize }),
        None => None,
    }
}

/// Every stage of a well-formed graph has a render buffer of exactly two textures, at the
/// graph's current resolution.
pub proof fn lemma_two_textures_per_stage<T, P, V, A, M, U>(view: ShaderView<T, P, V, A, M, U>)
    requires
        view.wf(),
    ensures
        view.spec_buffers().len() == view.spec_chain().len(),
        forall|i: int|
            0 <= i < view.spec_chain().len() ==> (#[trigger] view.spec_buffers()[i]).spec_textures().len()
                == 2 && view.spec_buffers()[i].spec_resolution() == buffer_resolution(
                view.spec_resolution(),
            ),
{
    assert forall|i: int| 0 <= i < view.spec_chain().len() implies (
    #[trigger] view.spec_buffers()[i]).spec_textures().len() == 2
        && view.spec_buffers()[i].spec_resolution() == buffer_resolution(
        view.spec_resolution(),
    ) by {
        assert(view.spec_buffers()[i].wf());
    }
}

/// The buffer format of each stage, in order.
pub fn formats_of<V, A, M, U>(chain: &Vec<Stage<V, A, M, U>>) -> (r: Vec<BufferFormat>)
    ensures
        r@.len() == chain@.len(),
        forall|i: int| 0 <= i < chain@.len() ==> r@[i] == (#[trigger] chain@[i]).spec_format(),
{
    let mut formats: Vec<BufferFormat> = Vec::new();
    let mut i: usize = 0;
    while i < chain.len()
        invariant
            i <= chain@.len(),
            formats@.len() == i,
            forall|j: int| 0 <= j < i ==> formats@[j] == (#[trigger] chain@[j]).spec_format(),
        decreases chain@.len() - i,
    {
        formats.push(chain[i].get_buffer_format());
        i = i + 1;
    }
    formats
}

} // verus!
