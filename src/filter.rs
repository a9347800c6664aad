use vstd::prelude::*;

use crate::keyed::{
    has_name, lemma_first_is_only, lemma_push_names, lookup, position_of, position_of_spec,
    unique_names, upsert,
};
use crate::sampling::SamplerFilters;

verus! {

/// Where the value bound to one uniform of a stage's draw comes from.
#[derive(Clone, Copy, Debug, PartialEq, Eq, Structural)]
pub enum StageInput {
    /// The front texture of the render buffer of the stage at this index.
    Target { stage: usize, filters: SamplerFilters },
    /// The entry at this index of the graph's uniform cache.
    Environment { index: usize, filters: SamplerFilters },
    /// The entry at this index of the stage's own uniform list.
    Variable { index: usize },
}

/// Where a uniform of a filter's draw is taken from.
#[derive(Clone, Copy, Debug, PartialEq, Eq, Structural)]
pub enum UniformSource {
    /// A value bound by the stage being drawn.
    Input(StageInput),
    /// The entry at this index of the filter's own uniforms.
    Default(usize),
}

/// One piece of a shader's source text: a file, and whether edits to it are picked up.
#[derive(Clone, Debug)]
pub struct ShaderFragment {
    pub path: String,
    pub watched: bool,
}

/// A shader program with the sources it was built from and the uniforms it sets itself.
///
/// `program` is always the one compiled from the last texts that compiled.
pub struct Filter<P, U> {
    vertex_shader: Vec<ShaderFragment>,
    fragment_shader: Vec<ShaderFragment>,
    uniform_holder: Vec<(String, (U, Option<SamplerFilters>))>,
    inputs: Vec<String>,
    vertex_text: String,
    fragment_text: String,
    program: P,
}

/// The source the draw plan of a filter gives the uniform named `n`, if any.
pub open spec fn chosen_source<U>(
    stage_inputs: Seq<(String, StageInput)>,
    defaults: Seq<(String, (U, Option<SamplerFilters>))>,
    n: Seq<char>,
) -> Option<UniformSource> {
    if has_name(stage_inputs, n) {
        Some(UniformSource::Input(stage_inputs[position_of_spec(stage_inputs, n).unwrap()].1))
    } else if has_name(defaults, n) {
        Some(UniformSource::Default(position_of_spec(defaults, n).unwrap() as usize))
    } else {
        None
    }
}

impl<P, U> Filter<P, U> {
    pub open spec fn wf(&self) -> bool {
        unique_names(self.spec_uniforms())
    }

    pub closed spec fn spec_uniforms(&self) -> Seq<(String, (U, Option<SamplerFilters>))> {
        self.uniform_holder@
    }

    pub closed spec fn spec_inputs(&self) -> Seq<String> {
        self.inputs@
    }

    pub closed spec fn spec_program(&self) -> P {
        self.program
    }

    pub closed spec fn spec_vertex_shader(&self) -> Seq<ShaderFragment> {
        self.vertex_shader@
    }

    pub closed spec fn spec_fragment_shader(&self) -> Seq<ShaderFragment> {
        self.fragment_shader@
    }

    pub closed spec fn spec_vertex_string(&self) -> String {
        self.vertex_text
    }

    pub closed spec fn spec_fragment_string(&self) -> String {
        self.fragment_text
    }

    pub closed spec fn spec_vertex_text(&self) -> Seq<char> {
        self.vertex_text@
    }

    pub closed spec fn spec_fragment_text(&self) -> Seq<char> {
        self.fragment_text@
    }

    /// The filter reads a uniform named `n`: it lists it as an input or sets it itself.
    pub open spec fn declares(&self, n: Seq<char>) -> bool {
        (exists|i: int| 0 <= i < self.spec_inputs().len() && self.spec_inputs()[i]@ == n)
            || has_name(self.spec_uniforms(), n)
    }

    /// A filter built from `program`, which was compiled from the two texts.
    pub fn new(
        vertex_shader: Vec<ShaderFragment>,
        fragment_shader: Vec<ShaderFragment>,
        inputs: Vec<String>,
        uniform_holder: Vec<(String, (U, Option<SamplerFilters>))>,
        vertex_text: String,
        fragment_text: String,
        program: P,
    ) -> (r: Self)
        requires
            unique_names(uniform_holder@),
        ensures
            r.wf(),
            r.spec_uniforms() == uniform_holder@,
            r.spec_inputs() == inputs@,
            r.spec_vertex_text() == vertex_text@,
            r.spec_fragment_text() == fragment_text@,
            r.spec_program() == program,
    {
        Filter {
            vertex_shader,
            fragment_shader,
            uniform_holder,
            inputs,
            vertex_text,
            fragment_text,
            program,
        }
    }

    pub fn get_program(&self) -> (r: &P)
        ensures
            *r == self.spec_program(),
    {
        &self.program
    }

    pub fn get_inputs(&self) -> (r: &Vec<String>)
        ensures
            r@ == self.spec_inputs(),
    {
        &self.inputs
    }

    pub fn get_uniforms(&self) -> (r: &Vec<(String, (U, Option<SamplerFilters>))>)
        ensures
            r@ == self.spec_uniforms(),
    {
        &self.uniform_holder
    }

    pub fn get_vertex_shader(&self) -> (r: &Vec<ShaderFragment>)
        ensures
            r@ == self.spec_vertex_shader(),
    {
        &self.vertex_shader
    }

    pub fn get_fragment_shader(&self) -> (r: &Vec<ShaderFragment>)
        ensures
            r@ == self.spec_fragment_shader(),
    {
        &self.fragment_shader
    }

    pub fn get_vertex_text(&self) -> (r: &String)
        ensures
            r@ == self.spec_vertex_text(),
    {
        &self.vertex_text
    }

    pub fn get_fragment_text(&self) -> (r: &String)
        ensures
            r@ == self.spec_fragment_text(),
    {
        &self.fragment_text
    }

    /// Sets one of the filter's own uniforms, adding it when it is new.
    pub fn set_uniform(&mut self, name: String, value: U, sampling: Option<SamplerFilters>)
        requires
            old(self).wf(),
        ensures
            final(self).wf(),
            match position_of_spec(old(self).spec_uniforms(), name@) {
                Some(i) => final(self).spec_uniforms() == old(self).spec_uniforms().update(
                    i,
                    (name, (value, sampling)),
                ),
                None => final(self).spec_uniforms() == old(self).spec_uniforms().push(
                    (name, (value, sampling)),
                ),
            },
            forall|n: Seq<char>|
                #[trigger] lookup(final(self).spec_uniforms(), n) == if n == name@ {
                    Some((value, sampling))
                } else {
                    lookup(old(self).spec_uniforms(), n)
                },
            final(self).spec_inputs() == old(self).spec_inputs(),
            final(self).spec_program() == old(self).spec_program(),
            final(self).spec_vertex_text() == old(self).spec_vertex_text(),
            final(self).spec_fragment_text() == old(self).spec_fragment_text(),
    {
        upsert(&mut self.uniform_holder, name, (value, sampling));
    }

    /// Takes in the new text of whichever shader changed and recompiles from the current texts.
    ///
    /// With neither text given nothing happens and `Ok(false)` comes back. Otherwise the texts
    /// are replaced and `compile` is called on them once: a program it returns replaces the
    /// current one (`Ok(true)`); on an error the current program stays and the error is
    /// returned, so that drawing goes on exactly as before.
    pub fn update<E, F: Fn(&String, &String) -> Result<P, E>>(
        &mut self,
        vertex_text: Option<String>,
        fragment_text: Option<String>,
        compile: F,
    ) -> (r: Result<bool, E>)
        requires
            forall|v: &String, f: &String| compile.requires((v, f)),
        ensures
            final(self).wf() == old(self).wf(),
            final(self).spec_uniforms() == old(self).spec_uniforms(),
            final(self).spec_inputs() == old(self).spec_inputs(),
            final(self).spec_vertex_text() == match vertex_text {
                Some(t) => t@,
                None => old(self).spec_vertex_text(),
            },
            final(self).spec_fragment_text() == match fragment_text {
                Some(t) => t@,
                None => old(self).spec_fragment_text(),
            },
            vertex_text is None && fragment_text is None ==> r == Ok::<bool, E>(false)
                && final(self).spec_program() == old(self).spec_program(),
            !(vertex_text is None && fragment_text is None) ==> match r {
                Ok(recompiled) => recompiled && compile.ensures(
                    (&final(self).spec_vertex_string(), &final(self).spec_fragment_string()),
                    Ok::<P, E>(final(self).spec_program()),
                ),
                Err(e) => final(self).spec_program() == old(self).spec_program()
                    && compile.ensures(
                    (&final(self).spec_vertex_string(), &final(self).spec_fragment_string()),
                    Err::<P, E>(e),
                ),
            },
    {
        if vertex_text.is_none() && fragment_text.is_none() {
            return Ok(false);
        }
        if let Some(t) = vertex_text {
            self.vertex_text = t;
        }
        if let Some(t) = fragment_text {
            self.fragment_text = t;
        }
        let c = compile(&self.vertex_text, &self.fragment_text);
        let ghost outcome = c;
        assert(compile.ensures((&self.spec_vertex_string(), &self.spec_fragment_string()), outcome));
        match c {
            Ok(p) => {
                self.program = p;
                Ok(true)
            },
            Err(e) => {
                Err(e)
            },
        }
    }

    /// Decides where each uniform of a draw of this filter comes from.
    ///
    /// Every uniform the filter declares, first its inputs then its own uniforms, is taken from
    /// the stage's bound value of that name when there is one, else from the filter's own
    /// uniform of that name; a name with neither is left unbound. Each name appears once.
    pub fn uniform_plan(&self, stage_inputs: &Vec<(String, StageInput)>) -> (r: Vec<
        (String, UniformSource),
    >)
        requires
            self.wf(),
            unique_names(stage_inputs@),
        ensures
            unique_names(r@),
            forall|i: int|
                0 <= i < r@.len() ==> self.declares(r@[i].0@) && chosen_source(
                    stage_inputs@,
                    self.spec_uniforms(),
                    #[trigger] r@[i].0@,
                ) == Some(r@[i].1),
            forall|n: Seq<char>|
                self.declares(n) && chosen_source(stage_inputs@, self.spec_uniforms(), n) is Some
                    ==> #[trigger] has_name(r@, n),
    {
        let mut plan: Vec<(String, UniformSource)> = Vec::new();
        let mut j: usize = 0;
        while j < self.inputs.len()
            invariant
                self.wf(),
                unique_names(stage_inputs@),
                unique_names(plan@),
                j <= self.spec_inputs().len(),
                forall|i: int|
                    0 <= i < plan@.len() ==> self.declares(plan@[i].0@) && chosen_source(
                        stage_inputs@,
                        self.spec_uniforms(),
                        #[trigger] plan@[i].0@,
                    ) == Some(plan@[i].1),
                forall|k: int|
                    0 <= k < j && chosen_source(
                        stage_inputs@,
                        self.spec_uniforms(),
                        #[trigger] self.spec_inputs()[k]@,
                    ) is Some ==> has_name(plan@, self.spec_inputs()[k]@),
            decreases self.spec_inputs().len() - j,
        {
            let name = &self.inputs[j];
            assert(self.spec_inputs()[j as int] == self.inputs@[j as int]);
            assert(self.declares(name@));
            let ghost before = plan@;
            let found = position_of(&plan, name);
            if let Some(p) = found {
                assert(has_name(plan@, plan@[p as int].0@));
            } else {
                match position_of(stage_inputs, name) {
                    Some(s) => {
                        proof {
                            lemma_first_is_only(stage_inputs@, name@, s as int);
                        }
                        plan.push((name.clone(), UniformSource::Input(stage_inputs[s].1)));
                        proof {
                            lemma_push_names(before, plan@[plan@.len() - 1]);
                        }
                    },
                    None => match position_of(&self.uniform_holder, name) {
                        Some(d) => {
                            proof {
                                lemma_first_is_only(self.spec_uniforms(), name@, d as int);
                            }
                            plan.push((name.clone(), UniformSource::Default(d)));
                            proof {
                                lemma_push_names(before, plan@[plan@.len() - 1]);
                            }
                        },
                        None => {},
                    },
                }
            }
            j = j + 1;
        }
        let mut j: usize = 0;
        while j < self.uniform_holder.len()
            invariant
                self.wf(),
                unique_names(stage_inputs@),
                unique_names(plan@),
                j <= self.spec_uniforms().len(),
                forall|i: int|
                    0 <= i < plan@.len() ==> self.declares(plan@[i].0@) && chosen_source(
                        stage_inputs@,
                        self.spec_uniforms(),
                        #[trigger] plan@[i].0@,
                    ) == Some(plan@[i].1),
                forall|k: int|
                    0 <= k < self.spec_inputs().len() && chosen_source(
                        stage_inputs@,
                        self.spec_uniforms(),
                        #[trigger] self.spec_inputs()[k]@,
                    ) is Some ==> has_name(plan@, self.spec_inputs()[k]@),
                forall|k: int| 0 <= k < j ==> has_name(plan@, #[trigger] self.spec_uniforms()[k].0@),
            decreases self.spec_uniforms().len() - j,
        {
            let name = &self.uniform_holder[j].0;
            assert(self.spec_uniforms()[j as int] == self.uniform_holder@[j as int]);
            assert(has_name(self.spec_uniforms(), name@));
            let ghost before = plan@;
            let found = position_of(&plan, name);
            if let Some(p) = found {
                assert(has_name(plan@, plan@[p as int].0@));
            } else {
                match position_of(stage_inputs, name) {
                    Some(s) => {
                        proof {
                            lemma_first_is_only(stage_inputs@, name@, s as int);
                        }
                        plan.push((name.clone(), UniformSource::Input(stage_inputs[s].1)));
                        proof {
                            lemma_push_names(before, plan@[plan@.len() - 1]);
                        }
                    },
                    None => {
                        proof {
                            lemma_first_is_only(self.spec_uniforms(), name@, j as int);
                        }
                        plan.push((name.clone(), UniformSource::Default(j)));
                        proof {
                            lemma_push_names(before, plan@[plan@.len() - 1]);
                        }
                    },
                }
            }
            j = j + 1;
        }
        proof {
            assert forall|n: Seq<char>|
                self.declares(n) && chosen_source(stage_inputs@, self.spec_uniforms(), n) is Some
                    implies #[trigger] has_name(plan@, n) by {
                if exists|i: int| 0 <= i < self.spec_inputs().len() && self.spec_inputs()[i]@ == n {
                    let i = choose|i: int| 0 <= i < self.spec_inputs().len() && self.spec_inputs()[i]@ == n;
                    assert(chosen_source(stage_inputs@, self.spec_uniforms(), self.spec_inputs()[i]@)
                        is Some);
                } else {
                    let i = choose|i: int|
                        0 <= i < self.spec_uniforms().len() && self.spec_uniforms()[i].0@ == n;
                    assert(has_name(plan@, self.spec_uniforms()[i].0@));
                }
            }
        }
        plan
    }
}

/// A recompilation that failed leaves every draw of the filter as it was: the program run is
/// the same, the filter declares the same uniforms, and each takes its value from the same
/// source. `after` is the filter after an update that returned an error, as that update's
/// contract describes it.
pub proof fn lemma_failed_update_keeps_draws<P, U>(
    before: Filter<P, U>,
    after: Filter<P, U>,
    stage_inputs: Seq<(String, StageInput)>,
)
    requires
        after.spec_program() == before.spec_program(),
        after.spec_uniforms() == before.spec_uniforms(),
        after.spec_inputs() == before.spec_inputs(),
    ensures
        forall|n: Seq<char>|
            #[trigger] after.declares(n) == before.declares(n) && chosen_source(
                stage_inputs,
                after.spec_uniforms(),
                n,
            ) == chosen_source(stage_inputs, before.spec_uniforms(), n),
{
}

} // verus!
