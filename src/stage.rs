use vstd::prelude::*;

use crate::keyed::{
    get_named, has_name, lookup, remove_named, unique_names, upsert,
};
use crate::sampling::{buffer_format_of, spec_format_of, BufferFormat, BufferPrecision, InputSampler};

verus! {

/// A stage variable: its base value, the curve animating it, if any, and an optional offset
/// given as the name of an environment value and the weight it is added with.
pub struct VariableBinding<V, A> {
    pub value: V,
    pub automation: Option<A>,
    pub offset: Option<(String, V)>,
}

/// What a stage is built from.
pub struct RenderStageConfig<V, A, M> {
    pub filter: String,
    pub filter_mode_params: M,
    pub inputs: Vec<(String, InputSampler)>,
    pub variables: Vec<(String, VariableBinding<V, A>)>,
    pub precision: BufferPrecision,
}

/// The weight and the environment value an offset of the binding adds, when its reference
/// resolves in `env`.
pub open spec fn offset_reference<V, A>(b: VariableBinding<V, A>, env: Seq<(String, V)>) -> Option<
    (V, V),
> {
    match b.offset {
        Some(o) => match lookup(env, o.0@) {
            Some(r) => Some((o.1, r)),
            None => None,
        },
        None => None,
    }
}

/// `r` is a possible outcome of resolving the binding in `env`: `None` when neither the offset
/// nor the automation changes the base value, else the value they lead to. The offset is
/// `shift(base, weight, reference)`; the automation then runs on that value, and a value it
/// returns replaces it.
pub open spec fn resolves_to<V, A, F: Fn(&V, &V, &V) -> V, G: Fn(&A, &V) -> Option<V>>(
    b: VariableBinding<V, A>,
    env: Seq<(String, V)>,
    shift: F,
    automate: G,
    r: Option<V>,
) -> bool {
    match offset_reference(b, env) {
        None => match b.automation {
            None => r is None,
            Some(a) => automate.ensures((&a, &b.value), r),
        },
        Some(wr) => exists|s: V|
            #[trigger] shift.ensures((&b.value, &wr.0, &wr.1), s) && match b.automation {
                None => r == Some(s),
                Some(a) => {
                    ||| (automate.ensures((&a, &s), None::<V>) && r == Some(s))
                    ||| (r is Some && automate.ensures((&a, &s), r))
                },
            },
    }
}

/// Where the offset does not apply, a variable changes exactly when it has an automation and
/// that automation returns a value, which is then the value the variable takes.
pub proof fn lemma_automation_decides_change<
    V,
    A,
    F: Fn(&V, &V, &V) -> V,
    G: Fn(&A, &V) -> Option<V>,
>(b: VariableBinding<V, A>, env: Seq<(String, V)>, shift: F, automate: G, r: Option<V>)
    requires
        offset_reference(b, env) is None,
        resolves_to(b, env, shift, automate, r),
    ensures
        b.automation is None ==> r is None,
        b.automation is Some ==> automate.ensures((&b.automation.unwrap(), &b.value), r),
{
}

/// Resolves one variable binding against the environment.
///
/// Returns `None` when the value stays the base value, else the value it resolves to.
pub fn resolve_variable<V, A, F: Fn(&V, &V, &V) -> V, G: Fn(&A, &V) -> Option<V>>(
    b: &VariableBinding<V, A>,
    env: &Vec<(String, V)>,
    shift: &F,
    automate: &G,
) -> (r: Option<V>)
    requires
        unique_names(env@),
        forall|x: &V, w: &V, y: &V| shift.requires((x, w, y)),
        forall|a: &A, x: &V| automate.requires((a, x)),
    ensures
        resolves_to(*b, env@, *shift, *automate, r),
{
    let shifted: Option<V> = match &b.offset {
        Some(o) => match get_named(env, &o.0) {
            Some(reference) => Some(shift(&b.value, &o.1, reference)),
            None => None,
        },
        None => None,
    };
    match &b.automation {
        Some(a) => {
            match shifted {
                Some(s) => {
                    let out = automate(a, &s);
                    match out {
                        Some(v) => Some(v),
                        None => Some(s),
                    }
                },
                None => automate(a, &b.value),
            }
        },
        None => shifted,
    }
}

/// A node of the render graph: a filter, the inputs it samples, the variables it binds and
/// the format of its render buffers.
pub struct Stage<V, A, M, U> {
    name: String,
    filter: String,
    filter_mode_params: M,
    input_map: Vec<(String, InputSampler)>,
    variable_list: Vec<(String, VariableBinding<V, A>)>,
    uniform_list: Vec<(String, U)>,
    buffer_format: BufferFormat,
    recreate_buffers: bool,
}

impl<V, A, M, U> Stage<V, A, M, U> {
    pub closed spec fn spec_name(&self) -> Seq<char> {
        self.name@
    }

    pub closed spec fn spec_filter(&self) -> Seq<char> {
        self.filter@
    }

    pub closed spec fn spec_mode(&self) -> M {
        self.filter_mode_params
    }

    pub closed spec fn spec_inputs(&self) -> Seq<(String, InputSampler)> {
        self.input_map@
    }

    pub closed spec fn spec_variables(&self) -> Seq<(String, VariableBinding<V, A>)> {
        self.variable_list@
    }

    pub closed spec fn spec_uniforms(&self) -> Seq<(String, U)> {
        self.uniform_list@
    }

    pub closed spec fn spec_format(&self) -> BufferFormat {
        self.buffer_format
    }

    pub closed spec fn spec_recreate(&self) -> bool {
        self.recreate_buffers
    }

    pub open spec fn wf(&self) -> bool {
        &&& unique_names(self.spec_inputs())
        &&& unique_names(self.spec_variables())
        &&& unique_names(self.spec_uniforms())
    }

    /// Everything but the buffer flag is as in `other`.
    pub open spec fn same_but_flag(&self, other: &Self) -> bool {
        &&& self.spec_name() == other.spec_name()
        &&& self.spec_filter() == other.spec_filter()
        &&& self.spec_mode() == other.spec_mode()
        &&& self.spec_inputs() == other.spec_inputs()
        &&& self.spec_variables() == other.spec_variables()
        &&& self.spec_uniforms() == other.spec_uniforms()
        &&& self.spec_format() == other.spec_format()
    }

    /// Everything but the uniform list is as in `other`.
    pub open spec fn same_but_uniforms(&self, other: &Self) -> bool {
        &&& self.spec_name() == other.spec_name()
        &&& self.spec_filter() == other.spec_filter()
        &&& self.spec_mode() == other.spec_mode()
        &&& self.spec_inputs() == other.spec_inputs()
        &&& self.spec_variables() == other.spec_variables()
        &&& self.spec_format() == other.spec_format()
        &&& self.spec_recreate() == other.spec_recreate()
    }

    /// A stage whose buffers are still to be allocated.
    pub fn new(
        name: &str,
        buffer_format: BufferFormat,
        filter: &str,
        filter_mode_params: M,
        input_map: Vec<(String, InputSampler)>,
        variable_list: Vec<(String, VariableBinding<V, A>)>,
        uniform_list: Vec<(String, U)>,
    ) -> (r: Self)
        requires
            unique_names(input_map@),
            unique_names(variable_list@),
            unique_names(uniform_list@),
        ensures
            r.wf(),
            r.spec_name() == name@,
            r.spec_filter() == filter@,
            r.spec_mode() == filter_mode_params,
            r.spec_inputs() == input_map@,
            r.spec_variables() == variable_list@,
            r.spec_uniforms() == uniform_list@,
            r.spec_format() == buffer_format,
            r.spec_recreate(),
    {
        Stage {
            name: name.to_owned(),
            filter: filter.to_owned(),
            filter_mode_params,
            input_map,
            variable_list,
            uniform_list,
            buffer_format,
            recreate_buffers: true,
        }
    }

    /// Builds a stage from its configuration, converting the base value of each variable
    /// into its first uniform. Fails with the first conversion error.
    pub fn from_config<E, C: Fn(&V) -> Result<U, E>>(
        name: &str,
        config: RenderStageConfig<V, A, M>,
        convert: &C,
    ) -> (r: Result<Self, E>)
        requires
            unique_names(config.inputs@),
            unique_names(config.variables@),
            forall|x: &V| convert.requires((x,)),
        ensures
            match r {
                Ok(s) => {
                    &&& s.wf()
                    &&& s.spec_name() == name@
                    &&& s.spec_filter() == config.filter@
                    &&& s.spec_mode() == config.filter_mode_params
                    &&& s.spec_inputs() == config.inputs@
                    &&& s.spec_variables() == config.variables@
                    &&& s.spec_format() == spec_format_of(config.precision)
                    &&& s.spec_recreate()
                    &&& s.spec_uniforms().len() == config.variables@.len()
                    &&& forall|i: int|
                        0 <= i < config.variables@.len() ==> s.spec_uniforms()[i].0@
                            == config.variables@[i].0@ && convert.ensures(
                            (&config.variables@[i].1.value,),
                            Ok::<U, E>(#[trigger] s.spec_uniforms()[i].1),
                        )
                },
                Err(e) => exists|i: int|
                    0 <= i < config.variables@.len() && convert.ensures(
                        (&#[trigger] config.variables@[i].1.value,),
                        Err::<U, E>(e),
                    ),
            },
    {
        let mut uniform_list: Vec<(String, U)> = Vec::new();
        let mut i: usize = 0;
        while i < config.variables.len()
            invariant
                i <= config.variables@.len(),
                uniform_list@.len() == i,
                unique_names(config.variables@),
                forall|x: &V| convert.requires((x,)),
                forall|j: int|
                    0 <= j < i ==> (#[trigger] uniform_list@[j]).0@ == config.variables@[j].0@
                        && convert.ensures(
                        (&config.variables@[j].1.value,),
                        Ok::<U, E>(uniform_list@[j].1),
                    ),
            decreases config.variables@.len() - i,
        {
            let converted = convert(&config.variables[i].1.value);
            let ghost outcome = converted;
            match converted {
                Ok(u) => {
                    uniform_list.push((config.variables[i].0.clone(), u));
                    assert(uniform_list@[i as int].1 == u);
                    assert(convert.ensures((&config.variables@[i as int].1.value,), outcome));
                },
                Err(e) => {
                    assert(convert.ensures((&config.variables@[i as int].1.value,), outcome));
                    return Err(e);
                },
            }
            i = i + 1;
        }
        assert(unique_names(uniform_list@)) by {
            assert forall|a: int, b: int|
                0 <= a < uniform_list@.len() && 0 <= b < uniform_list@.len() && a != b implies
                uniform_list@[a].0@ != uniform_list@[b].0@ by {
                assert(uniform_list@[a].0@ == config.variables@[a].0@);
                assert(uniform_list@[b].0@ == config.variables@[b].0@);
                assert(config.variables@[a].0@ != config.variables@[b].0@);
            }
        }
        let buffer_format = buffer_format_of(config.precision);
        Ok(
            Stage {
                name: name.to_owned(),
                filter: config.filter,
                filter_mode_params: config.filter_mode_params,
                input_map: config.inputs,
                variable_list: config.variables,
                uniform_list,
                buffer_format,
                recreate_buffers: true,
            },
        )
    }

    pub fn get_name(&self) -> (r: &String)
        ensures
            r@ == self.spec_name(),
    {
        &self.name
    }

    pub fn get_filter(&self) -> (r: &String)
        ensures
            r@ == self.spec_filter(),
    {
        &self.filter
    }

    pub fn get_filter_mode_params(&self) -> (r: &M)
        ensures
            *r == self.spec_mode(),
    {
        &self.filter_mode_params
    }

    pub fn get_input_map(&self) -> (r: &Vec<(String, InputSampler)>)
        ensures
            r@ == self.spec_inputs(),
    {
        &self.input_map
    }

    pub fn get_variable_list(&self) -> (r: &Vec<(String, VariableBinding<V, A>)>)
        ensures
            r@ == self.spec_variables(),
    {
        &self.variable_list
    }

    pub fn get_uniform_list(&self) -> (r: &Vec<(String, U)>)
        ensures
            r@ == self.spec_uniforms(),
    {
        &self.uniform_list
    }

    pub fn get_buffer_format(&self) -> (r: BufferFormat)
        ensures
            r == self.spec_format(),
    {
        self.buffer_format
    }

    /// Whether the stage's render buffers must be allocated anew.
    pub fn needs_new_buffers(&self) -> (r: bool)
        ensures
            r == self.spec_recreate(),
    {
        self.recreate_buffers
    }

    /// Records that the stage's render buffers were allocated at its current format.
    pub fn buffers_recreated(&mut self)
        ensures
            !final(self).spec_recreate(),
            final(self).spec_name() == old(self).spec_name(),
            final(self).spec_filter() == old(self).spec_filter(),
            final(self).spec_mode() == old(self).spec_mode(),
            final(self).spec_inputs() == old(self).spec_inputs(),
            final(self).spec_variables() == old(self).spec_variables(),
            final(self).spec_uniforms() == old(self).spec_uniforms(),
            final(self).spec_format() == old(self).spec_format(),
    {
        self.recreate_buffers = false;
    }

    /// Changes the channel precision; the buffers are marked for reallocation only when the
    /// format actually changes.
    pub fn set_precision(&mut self, precision: BufferPrecision)
        ensures
            final(self).spec_format() == spec_format_of(precision),
            final(self).spec_recreate() == (old(self).spec_recreate() || old(self).spec_format()
                != spec_format_of(precision)),
            final(self).spec_name() == old(self).spec_name(),
            final(self).spec_filter() == old(self).spec_filter(),
            final(self).spec_mode() == old(self).spec_mode(),
            final(self).spec_inputs() == old(self).spec_inputs(),
            final(self).spec_variables() == old(self).spec_variables(),
            final(self).spec_uniforms() == old(self).spec_uniforms(),
    {
        let new_buffer_format = buffer_format_of(precision);
        if new_buffer_format != self.buffer_format {
            self.buffer_format = new_buffer_format;
            self.recreate_buffers = true;
        }
    }

    pub fn set_name(&mut self, name: &str)
        ensures
            final(self).spec_name() == name@,
            final(self).spec_filter() == old(self).spec_filter(),
            final(self).spec_mode() == old(self).spec_mode(),
            final(self).spec_inputs() == old(self).spec_inputs(),
            final(self).spec_variables() == old(self).spec_variables(),
            final(self).spec_uniforms() == old(self).spec_uniforms(),
            final(self).spec_format() == old(self).spec_format(),
            final(self).spec_recreate() == old(self).spec_recreate(),
    {
        self.name = name.to_owned();
    }

    pub fn set_filter(&mut self, filter_name: &str)
        ensures
            final(self).spec_filter() == filter_name@,
            final(self).spec_name() == old(self).spec_name(),
            final(self).spec_mode() == old(self).spec_mode(),
            final(self).spec_inputs() == old(self).spec_inputs(),
            final(self).spec_variables() == old(self).spec_variables(),
            final(self).spec_uniforms() == old(self).spec_uniforms(),
            final(self).spec_format() == old(self).spec_format(),
            final(self).spec_recreate() == old(self).spec_recreate(),
    {
        self.filter = filter_name.to_owned();
    }

    pub fn set_filter_mode_params(&mut self, filter_mode_params: M)
        ensures
            final(self).spec_mode() == filter_mode_params,
            final(self).spec_name() == old(self).spec_name(),
            final(self).spec_filter() == old(self).spec_filter(),
            final(self).spec_inputs() == old(self).spec_inputs(),
            final(self).spec_variables() == old(self).spec_variables(),
            final(self).spec_uniforms() == old(self).spec_uniforms(),
            final(self).spec_format() == old(self).spec_format(),
            final(self).spec_recreate() == old(self).spec_recreate(),
    {
        self.filter_mode_params = filter_mode_params;
    }

    /// Binds the uniform `input_name` to `input`, replacing an earlier binding of that name.
    pub fn set_input(&mut self, input_name: &str, input: InputSampler)
        requires
            old(self).wf(),
        ensures
            final(self).wf(),
            forall|n: Seq<char>|
                #[trigger] lookup(final(self).spec_inputs(), n) == if n == input_name@ {
                    Some(input)
                } else {
                    lookup(old(self).spec_inputs(), n)
                },
            final(self).spec_name() == old(self).spec_name(),
            final(self).spec_filter() == old(self).spec_filter(),
            final(self).spec_mode() == old(self).spec_mode(),
            final(self).spec_variables() == old(self).spec_variables(),
            final(self).spec_uniforms() == old(self).spec_uniforms(),
            final(self).spec_format() == old(self).spec_format(),
            final(self).spec_recreate() == old(self).spec_recreate(),
    {
        upsert(&mut self.input_map, input_name.to_owned(), input);
    }

    /// Resolves every variable against the environment and rebuilds the uniform of each one
    /// whose value changed; the others keep their uniform. Fails with the first conversion
    /// error.
    pub fn update<
        E,
        F: Fn(&V, &V, &V) -> V,
        G: Fn(&A, &V) -> Option<V>,
        C: Fn(&V) -> Result<U, E>,
    >(&mut self, env: &Vec<(String, V)>, shift: &F, automate: &G, convert: &C) -> (r: Result<
        (),
        E,
    >)
        requires
            old(self).wf(),
            unique_names(env@),
            forall|x: &V, w: &V, y: &V| shift.requires((x, w, y)),
            forall|a: &A, x: &V| automate.requires((a, x)),
            forall|x: &V| convert.requires((x,)),
        ensures
            final(self).wf(),
            final(self).same_but_uniforms(old(self)),
            r is Ok ==> Self::updated_from(
                final(self),
                old(self),
                env@,
                *shift,
                *automate,
                *convert,
            ),
            r matches Err(e) ==> exists|i: int, v: V|
                0 <= i < old(self).spec_variables().len() && #[trigger] resolves_to(
                    old(self).spec_variables()[i].1,
                    env@,
                    *shift,
                    *automate,
                    Some(v),
                ) && convert.ensures((&v,), Err::<U, E>(e)),
    {
        let ghost start = *self;
        let mut i: usize = 0;
        while i < self.variable_list.len()
            invariant
                self.wf(),
                self.same_but_uniforms(&start),
                start == *old(self),
                start.wf(),
                unique_names(env@),
                i <= self.spec_variables().len(),
                forall|x: &V, w: &V, y: &V| shift.requires((x, w, y)),
                forall|a: &A, x: &V| automate.requires((a, x)),
                forall|x: &V| convert.requires((x,)),
                forall|n: Seq<char>|
                    !has_name(start.spec_variables(), n) ==> #[trigger] lookup(
                        self.spec_uniforms(),
                        n,
                    ) == lookup(start.spec_uniforms(), n),
                forall|j: int|
                    i <= j < start.spec_variables().len() ==> lookup(
                        self.spec_uniforms(),
                        (#[trigger] start.spec_variables()[j]).0@,
                    ) == lookup(start.spec_uniforms(), start.spec_variables()[j].0@),
                forall|j: int|
                    0 <= j < i ==> #[trigger] Self::variable_updated(
                        &start,
                        self,
                        start.spec_variables()[j],
                        env@,
                        *shift,
                        *automate,
                        *convert,
                    ),
            decreases self.spec_variables().len() - i,
        {
            let resolved = resolve_variable(&self.variable_list[i].1, env, shift, automate);
            let ghost entry = self.variable_list@[i as int];
            let ghost before = *self;
            match resolved {
                Some(v) => {
                    let converted = convert(&v);
                    let ghost outcome = converted;
                    match converted {
                        Ok(u) => {
                            let name = self.variable_list[i].0.clone();
                            upsert(&mut self.uniform_list, name, u);
                            assert(Self::variable_updated(
                                &start,
                                self,
                                entry,
                                env@,
                                *shift,
                                *automate,
                                *convert,
                            )) by {
                                assert(lookup(self.spec_uniforms(), entry.0@) == Some(u));
                                assert(convert.ensures((&v,), outcome));
                            }
                        },
                        Err(e) => {
                            assert(outcome == Err::<U, E>(e));
                            assert(convert.ensures((&v,), Err::<U, E>(e)));
                            assert(resolves_to(
                                start.spec_variables()[i as int].1,
                                env@,
                                *shift,
                                *automate,
                                Some(v),
                            ));
                            return Err(e);
                        },
                    }
                },
                None => {},
            }
            proof {
                assert forall|j: int|
                    i + 1 <= j < start.spec_variables().len() implies lookup(
                    self.spec_uniforms(),
                    (#[trigger] start.spec_variables()[j]).0@,
                ) == lookup(start.spec_uniforms(), start.spec_variables()[j].0@) by {
                    assert(start.spec_variables()[j].0@ != entry.0@);
                }
                assert forall|j: int| 0 <= j < i implies #[trigger] Self::variable_updated(
                    &start,
                    self,
                    start.spec_variables()[j],
                    env@,
                    *shift,
                    *automate,
                    *convert,
                ) by {
                    assert(Self::variable_updated(
                        &start,
                        &before,
                        start.spec_variables()[j],
                        env@,
                        *shift,
                        *automate,
                        *convert,
                    ));
                    assert(start.spec_variables()[j].0@ != entry.0@);
                }
                assert forall|n: Seq<char>|
                    !has_name(start.spec_variables(), n) implies #[trigger] lookup(
                    self.spec_uniforms(),
                    n,
                ) == lookup(start.spec_uniforms(), n) by {
                    assert(n != entry.0@);
                }
            }
            i = i + 1;
        }
        Ok(())
    }

    /// `after` is `before` updated against `env`: only uniforms of variables changed, each as
    /// `variable_updated` says.
    pub open spec fn updated_from<
        E,
        F: Fn(&V, &V, &V) -> V,
        G: Fn(&A, &V) -> Option<V>,
        C: Fn(&V) -> Result<U, E>,
    >(
        after: &Self,
        before: &Self,
        env: Seq<(String, V)>,
        shift: F,
        automate: G,
        convert: C,
    ) -> bool {
        &&& after.wf()
        &&& after.spec_name() == before.spec_name()
        &&& after.spec_filter() == before.spec_filter()
        &&& after.spec_mode() == before.spec_mode()
        &&& after.spec_inputs() == before.spec_inputs()
        &&& after.spec_variables() == before.spec_variables()
        &&& after.spec_format() == before.spec_format()
        &&& forall|n: Seq<char>|
            !has_name(before.spec_variables(), n) ==> #[trigger] lookup(after.spec_uniforms(), n)
                == lookup(before.spec_uniforms(), n)
        &&& forall|i: int|
            0 <= i < before.spec_variables().len() ==> #[trigger] Self::variable_updated(
                before,
                after,
                before.spec_variables()[i],
                env,
                shift,
                automate,
                convert,
            )
    }

    /// Whether the buffer flag of the earlier state was set does not matter to an update.
    pub proof fn lemma_updated_from_any_flag<
        E,
        F: Fn(&V, &V, &V) -> V,
        G: Fn(&A, &V) -> Option<V>,
        C: Fn(&V) -> Result<U, E>,
    >(
        after: &Self,
        mid: &Self,
        before: &Self,
        env: Seq<(String, V)>,
        shift: F,
        automate: G,
        convert: C,
    )
        requires
            Self::updated_from(after, mid, env, shift, automate, convert),
            mid.same_but_flag(before),
        ensures
            Self::updated_from(after, before, env, shift, automate, convert),
    {
        assert forall|i: int| 0 <= i < before.spec_variables().len() implies #[trigger] Self::variable_updated(
            before,
            after,
            before.spec_variables()[i],
            env,
            shift,
            automate,
            convert,
        ) by {
            assert(Self::variable_updated(
                mid,
                after,
                mid.spec_variables()[i],
                env,
                shift,
                automate,
                convert,
            ));
        }
    }

    /// After an update from `before` to `after`, the uniform of the variable `entry` is either
    /// kept, where its value did not change, or the conversion of the value it resolved to.
    pub open spec fn variable_updated<
        E,
        F: Fn(&V, &V, &V) -> V,
        G: Fn(&A, &V) -> Option<V>,
        C: Fn(&V) -> Result<U, E>,
    >(
        before: &Self,
        after: &Self,
        entry: (String, VariableBinding<V, A>),
        env: Seq<(String, V)>,
        shift: F,
        automate: G,
        convert: C,
    ) -> bool {
        ||| (resolves_to(entry.1, env, shift, automate, None) && lookup(
            after.spec_uniforms(),
            entry.0@,
        ) == lookup(before.spec_uniforms(), entry.0@))
        ||| exists|v: V|
            #[trigger] resolves_to(entry.1, env, shift, automate, Some(v)) && (lookup(
                after.spec_uniforms(),
                entry.0@,
            ) matches Some(u) && convert.ensures((&v,), Ok::<U, E>(u)))
    }

    /// Sets the base value of a variable, adding the variable without automation or offset
    /// when it is new, and rebuilds its uniform. On a conversion error nothing changes.
    pub fn set_variable_value<E, C: Fn(&V) -> Result<U, E>>(
        &mut self,
        variable_name: &str,
        variable_value: V,
        convert: &C,
    ) -> (r: Result<(), E>)
        requires
            old(self).wf(),
            forall|x: &V| convert.requires((x,)),
        ensures
            final(self).wf(),
            match r {
                Ok(()) => {
                    &&& forall|n: Seq<char>|
                        #[trigger] lookup(final(self).spec_variables(), n) == if n
                            == variable_name@ {
                            Some(
                                match lookup(old(self).spec_variables(), n) {
                                    Some(b) => VariableBinding {
                                        value: variable_value,
                                        automation: b.automation,
                                        offset: b.offset,
                                    },
                                    None => VariableBinding {
                                        value: variable_value,
                                        automation: None,
                                        offset: None,
                                    },
                                },
                            )
                        } else {
                            lookup(old(self).spec_variables(), n)
                        }
                    &&& forall|n: Seq<char>|
                        n != variable_name@ ==> #[trigger] lookup(final(self).spec_uniforms(), n)
                            == lookup(old(self).spec_uniforms(), n)
                    &&& lookup(final(self).spec_uniforms(), variable_name@) matches Some(u)
                        && convert.ensures((&variable_value,), Ok::<U, E>(u))
                },
                Err(e) => *final(self) == *old(self) && convert.ensures(
                    (&variable_value,),
                    Err::<U, E>(e),
                ),
            },
            final(self).spec_name() == old(self).spec_name(),
            final(self).spec_filter() == old(self).spec_filter(),
            final(self).spec_mode() == old(self).spec_mode(),
            final(self).spec_inputs() == old(self).spec_inputs(),
            final(self).spec_format() == old(self).spec_format(),
            final(self).spec_recreate() == old(self).spec_recreate(),
    {
        let converted = convert(&variable_value);
        let u = match converted {
            Ok(u) => u,
            Err(e) => {
                return Err(e);
            },
        };
        let name = variable_name.to_owned();
        let previous = remove_named(&mut self.variable_list, &name);
        let binding = match previous {
            Some(b) => VariableBinding {
                value: variable_value,
                automation: b.automation,
                offset: b.offset,
            },
            None => VariableBinding { value: variable_value, automation: None, offset: None },
        };
        upsert(&mut self.variable_list, name.clone(), binding);
        upsert(&mut self.uniform_list, name, u);
        Ok(())
    }

    /// Replaces the offset of an existing variable; a name that is no variable is ignored.
    pub fn set_variable_offset(&mut self, variable_name: &str, offset: Option<(String, V)>)
        requires
            old(self).wf(),
        ensures
            final(self).wf(),
            forall|n: Seq<char>|
                #[trigger] lookup(final(self).spec_variables(), n) == if n == variable_name@ {
                    match lookup(old(self).spec_variables(), n) {
                        Some(b) => Some(
                            VariableBinding { value: b.value, automation: b.automation, offset },
                        ),
                        None => None,
                    }
                } else {
                    lookup(old(self).spec_variables(), n)
                },
            final(self).same_uniforms_and_rest(old(self)),
    {
        let name = variable_name.to_owned();
        let previous = remove_named(&mut self.variable_list, &name);
        if let Some(b) = previous {
            let binding = VariableBinding { value: b.value, automation: b.automation, offset };
            upsert(&mut self.variable_list, name, binding);
        }
    }

    /// Replaces the automation of an existing variable; a name that is no variable is ignored.
    pub fn set_variable_automation(&mut self, variable_name: &str, automation: Option<A>)
        requires
            old(self).wf(),
        ensures
            final(self).wf(),
            forall|n: Seq<char>|
                #[trigger] lookup(final(self).spec_variables(), n) == if n == variable_name@ {
                    match lookup(old(self).spec_variables(), n) {
                        Some(b) => Some(
                            VariableBinding { value: b.value, automation, offset: b.offset },
                        ),
                        None => None,
                    }
                } else {
                    lookup(old(self).spec_variables(), n)
                },
            final(self).same_uniforms_and_rest(old(self)),
    {
        let name = variable_name.to_owned();
        let previous = remove_named(&mut self.variable_list, &name);
        if let Some(b) = previous {
            let binding = VariableBinding { value: b.value, automation, offset: b.offset };
            upsert(&mut self.variable_list, name, binding);
        }
    }

    /// Everything but the variable list is as in `other`.
    pub open spec fn same_uniforms_and_rest(&self, other: &Self) -> bool {
        &&& self.spec_name() == other.spec_name()
        &&& self.spec_filter() == other.spec_filter()
        &&& self.spec_mode() == other.spec_mode()
        &&& self.spec_inputs() == other.spec_inputs()
        &&& self.spec_uniforms() == other.spec_uniforms()
        &&& self.spec_format() == other.spec_format()
        &&& self.spec_recreate() == other.spec_recreate()
    }
}

} // verus!
