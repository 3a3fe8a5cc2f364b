//! Plugin composition and the simulation build process.
//!
//! A simulation is assembled by adding plugins to a builder; each plugin
//! declares the plugins it depends on, and the builder validates that every
//! declared dependency has already been added before the plugin may build.
//! Once built, the plugin set and the execution graph are frozen; each tick
//! traverses the graph, commits the deferred deletions, and advances the
//! tick counter.

use crate::dispatch::{
    graph_names, has_name, lemma_graph_names_contains, lemma_graph_names_push,
    lemma_has_name_push, lemma_regions_compatible_append, lemma_run_preserves_entities,
    regions_compatible, run_model, spec_actions_conflict, Dispatcher, DispatcherBuilder,
    RegisteredSystem, SystemAction,
};
use crate::store::{
    commit_model, empty_world_model, lemma_commit_list_resources, World, WorldModel,
};
use vstd::prelude::*;

verus! {

/// A build-time configuration error. Construction fails immediately; the
/// simulation never starts.
#[derive(Clone, Debug)]
pub enum BuildError {
    /// A plugin was added before one of its declared dependencies.
    MissingDependency { plugin: String, dependency: String },
    /// Two systems were registered under one name.
    DuplicateSystemName { name: String },
    /// A system named a predecessor that has not been registered.
    UnknownPredecessor { system: String, predecessor: String },
    /// Two systems in the same barrier-delimited region have conflicting
    /// borrow sets and no declared ordering between them.
    BorrowConflict { first: String, second: String },
}

/// A plugin of this name has already been added.
pub open spec fn plugin_registered(ps: Seq<String>, n: Seq<char>) -> bool {
    exists|i: int| 0 <= i < ps.len() && (#[trigger] ps[i])@ == n
}

/// An independent physics module that composes into a simulation: a name,
/// the names of the plugins it depends on, and a build step that mutates the
/// builder.
pub trait Plugin: Sized {
    /// The plugin's name, as a sequence of characters.
    spec fn spec_name(&self) -> Seq<char>;

    /// The names of the plugins this one declares as dependencies.
    spec fn spec_deps(&self) -> Seq<Seq<char>>;

    /// Whether this plugin's build step succeeds against an execution graph
    /// that already carries the given system names.
    spec fn build_accepts(&self, names: Seq<Seq<char>>) -> bool;

    /// The plugin's name, by which later plugins may depend on it.
    fn name(&self) -> (r: String)
        ensures
            r@ == self.spec_name(),
    ;

    /// The names of the plugins that must already be added when this one is.
    fn deps(&self) -> (r: Vec<String>)
        ensures
            r@.map_values(|s: String| s@) == self.spec_deps(),
    ;

    /// Mutate the builder: register component types, resources and named
    /// systems. A build step leaves the recorded plugin list and the
    /// end-frame flag alone, keeps the graph's regions well formed, succeeds
    /// exactly when the graph's current names accept it, and never itself
    /// reports a missing dependency — dependency validation belongs to
    /// `add_plugin`.
    fn build(&self, builder: &mut SimulationBuilder) -> (r: Result<(), BuildError>)
        ensures
            final(builder).plugins@ == old(builder).plugins@,
            final(builder).end_frame_systems_added == old(builder).end_frame_systems_added,
            old(builder).dispatcher_builder.wf() ==> final(builder).dispatcher_builder.wf(),
            r is Ok <==> self.build_accepts(
                graph_names(old(builder).dispatcher_builder.systems@),
            ),
            !(r matches Err(BuildError::MissingDependency { .. })),
    ;
}

/// The descriptor's registrations can be added in order to a graph that
/// already carries `names`: each registration's name is fresh and each of
/// its predecessors is present by the time it is reached.
pub open spec fn registrations_acceptable(
    names: Seq<Seq<char>>,
    regs: Seq<SystemRegistration>,
) -> bool
    decreases regs.len(),
{
    if regs.len() == 0 {
        true
    } else {
        &&& !names.contains(regs[0].name@)
        &&& (forall|k: int|
            0 <= k < regs[0].predecessors@.len() ==> names.contains(
                (#[trigger] regs[0].predecessors@[k])@,
            ))
        &&& registrations_acceptable(names.push(regs[0].name@), regs.skip(1))
    }
}

/// The graph `sys` extends `sys0` by exactly the first `k` registrations of
/// the descriptor, in order, each placed under the given barrier count.
pub open spec fn registrations_added(
    sys0: Seq<RegisteredSystem>,
    barriers: usize,
    regs: Seq<SystemRegistration>,
    k: int,
    sys: Seq<RegisteredSystem>,
) -> bool {
    &&& sys.len() == sys0.len() + k
    &&& sys.take(sys0.len() as int) == sys0
    &&& forall|m: int|
        0 <= m < k ==> {
            &&& (#[trigger] sys[sys0.len() + m]).name@ == regs[m].name@
            &&& sys[sys0.len() + m].action == regs[m].action
            &&& sys[sys0.len() + m].region == barriers
            &&& sys[sys0.len() + m].predecessors@.map_values(|s: String| s@)
                == regs[m].predecessors@.map_values(|s: String| s@)
        }
}

/// One system registration carried by a descriptor plugin.
pub struct SystemRegistration {
    pub name: String,
    pub predecessors: Vec<String>,
    pub action: SystemAction,
}

/// A descriptor-driven plugin: a name, dependency names, and the named
/// systems its build step registers into the execution graph.
pub struct SystemSetPlugin {
    pub plugin_name: String,
    pub dependencies: Vec<String>,
    pub systems: Vec<SystemRegistration>,
}

/// Two name lists whose character views agree elementwise do so at every
/// index.
proof fn lemma_name_views_eq(a: Seq<String>, b: Seq<String>)
    requires
        a.map_values(|s: String| s@) == b.map_values(|s: String| s@),
    ensures
        a.len() == b.len(),
        forall|k: int| 0 <= k < a.len() ==> (#[trigger] a[k])@ == b[k]@,
{
    assert(a.map_values(|s: String| s@).len() == a.len());
    assert(b.map_values(|s: String| s@).len() == b.len());
    assert forall|k: int| 0 <= k < a.len() implies (#[trigger] a[k])@ == b[k]@ by {
        assert(a.map_values(|s: String| s@)[k] == b.map_values(|s: String| s@)[k]);
    }
}

/// Clone a list of names.
fn clone_strings(v: &Vec<String>) -> (r: Vec<String>)
    ensures
        r@.map_values(|s: String| s@) == v@.map_values(|s: String| s@),
{
    let mut r: Vec<String> = Vec::new();
    let n = v.len();
    for i in 0..n
        invariant
            n == v@.len(),
            r@.len() == i,
            forall|k: int| 0 <= k < i ==> (#[trigger] r@[k])@ == v@[k]@,
    {
        r.push(v[i].clone());
    }
    proof {
        assert(r@.map_values(|s: String| s@) =~= v@.map_values(|s: String| s@));
    }
    r
}

impl Plugin for SystemSetPlugin {
    open spec fn spec_name(&self) -> Seq<char> {
        self.plugin_name@
    }

    open spec fn spec_deps(&self) -> Seq<Seq<char>> {
        self.dependencies@.map_values(|s: String| s@)
    }

    open spec fn build_accepts(&self, names: Seq<Seq<char>>) -> bool {
        registrations_acceptable(names, self.systems@)
    }

    fn name(&self) -> (r: String) {
        self.plugin_name.clone()
    }

    fn deps(&self) -> (r: Vec<String>) {
        clone_strings(&self.dependencies)
    }

    /// Register the descriptor's systems in order. On success the graph is
    /// extended by exactly those registrations; on failure, by the ones
    /// before the registration `DispatcherBuilder::add` refused.
    fn build(&self, builder: &mut SimulationBuilder) -> (r: Result<(), BuildError>)
        ensures
            final(builder).world == old(builder).world,
            final(builder).dispatcher_builder.barriers == old(
                builder,
            ).dispatcher_builder.barriers,
            match r {
                Ok(_) => registrations_added(
                    old(builder).dispatcher_builder.systems@,
                    old(builder).dispatcher_builder.barriers,
                    self.systems@,
                    self.systems@.len() as int,
                    final(builder).dispatcher_builder.systems@,
                ),
                Err(_) => exists|f: int|
                    0 <= f < self.systems@.len() && registrations_added(
                        old(builder).dispatcher_builder.systems@,
                        old(builder).dispatcher_builder.barriers,
                        self.systems@,
                        f,
                        final(builder).dispatcher_builder.systems@,
                    ),
            },
    {
        let ghost db0 = old(builder).dispatcher_builder;
        let ghost regs = self.systems@;
        let ghost names0 = graph_names(db0.systems@);
        proof {
            assert(db0.systems@.take(db0.systems@.len() as int) =~= db0.systems@);
            assert(regs.skip(0) =~= regs);
        }
        let n = self.systems.len();
        for i in 0..n
            invariant
                db0 == old(builder).dispatcher_builder,
                names0 == graph_names(db0.systems@),
                n == regs.len(),
                regs == self.systems@,
                builder.plugins@ == old(builder).plugins@,
                builder.end_frame_systems_added == old(builder).end_frame_systems_added,
                builder.world == old(builder).world,
                builder.dispatcher_builder.barriers == db0.barriers,
                db0.wf() ==> builder.dispatcher_builder.wf(),
                registrations_added(
                    db0.systems@,
                    db0.barriers,
                    regs,
                    i as int,
                    builder.dispatcher_builder.systems@,
                ),
                registrations_acceptable(names0, regs) == registrations_acceptable(
                    graph_names(builder.dispatcher_builder.systems@),
                    regs.skip(i as int),
                ),
        {
            let reg = &self.systems[i];
            let ghost cur = builder.dispatcher_builder.systems@;
            let ghost names_i = graph_names(cur);
            proof {
                assert(regs.skip(i as int)[0] == regs[i as int]);
                assert(regs.skip(i as int).skip(1) =~= regs.skip(i as int + 1));
                lemma_graph_names_contains(cur, regs[i as int].name@);
            }
            let name_clone = reg.name.clone();
            let preds_clone = clone_strings(&reg.predecessors);
            let ghost preds_view = preds_clone@;
            let res = builder.dispatcher_builder.add(reg.action, name_clone, preds_clone);
            match res {
                Ok(_) => {
                    proof {
                        lemma_name_views_eq(preds_view, regs[i as int].predecessors@);
                        assert forall|k: int|
                            0 <= k < regs[i as int].predecessors@.len() implies names_i.contains(
                            (#[trigger] regs[i as int].predecessors@[k])@,
                        ) by {
                            assert(preds_view[k]@ == regs[i as int].predecessors@[k]@);
                            assert(has_name(cur, preds_view[k]@));
                            lemma_graph_names_contains(cur, regs[i as int].predecessors@[k]@);
                        }
                        let rs = builder.dispatcher_builder.systems@.last();
                        assert(builder.dispatcher_builder.systems@ == cur.push(rs));
                        lemma_graph_names_push(cur, rs);
                        assert(graph_names(builder.dispatcher_builder.systems@) =~= names_i.push(
                            regs[i as int].name@,
                        ));
                        assert(registrations_acceptable(names_i, regs.skip(i as int))
                            == registrations_acceptable(
                            names_i.push(regs[i as int].name@),
                            regs.skip(i as int + 1),
                        ));
                        assert(registrations_added(
                            db0.systems@,
                            db0.barriers,
                            regs,
                            i as int + 1,
                            builder.dispatcher_builder.systems@,
                        )) by {
                            assert(cur.push(rs).take(db0.systems@.len() as int) =~= cur.take(
                                db0.systems@.len() as int,
                            ));
                        }
                        if db0.wf() {
                            assert forall|m: int|
                                0 <= m < builder.dispatcher_builder.systems@.len() implies (
                            #[trigger] builder.dispatcher_builder.systems@[m]).region
                                <= builder.dispatcher_builder.barriers by {
                                if m < cur.len() {
                                    assert(cur[m].region <= db0.barriers);
                                }
                            }
                        }
                    }
                },
                Err(e) => {
                    proof {
                        match e {
                            BuildError::DuplicateSystemName { .. } => {
                                assert(names_i.contains(regs[i as int].name@));
                                assert(!registrations_acceptable(names_i, regs.skip(i as int)));
                            },
                            BuildError::UnknownPredecessor { .. } => {
                                lemma_name_views_eq(preds_view, regs[i as int].predecessors@);
                                assert(exists|x: int|
                                    0 <= x < preds_view.len() && !has_name(
                                        cur,
                                        (#[trigger] preds_view[x])@,
                                    ));
                                let x = choose|x: int|
                                    0 <= x < preds_view.len() && !has_name(
                                        cur,
                                        (#[trigger] preds_view[x])@,
                                    );
                                assert(preds_view[x]@ == regs[i as int].predecessors@[x]@);
                                lemma_graph_names_contains(cur, preds_view[x]@);
                                assert(!names_i.contains(regs[i as int].predecessors@[x]@));
                                assert(!registrations_acceptable(names_i, regs.skip(i as int)));
                            },
                            _ => {
                                assert(false);
                            },
                        }
                        assert(0 <= (i as int) < regs.len() && registrations_added(
                            db0.systems@,
                            db0.barriers,
                            regs,
                            i as int,
                            builder.dispatcher_builder.systems@,
                        ));
                    }
                    return Err(e);
                },
            }
        }
        proof {
            assert(regs.skip(n as int).len() == 0);
            assert(registrations_acceptable(
                graph_names(builder.dispatcher_builder.systems@),
                regs.skip(n as int),
            ));
        }
        Ok(())
    }
}

/// Accumulates component registrations, resources and the named execution
/// graph while plugins are added; produces a [`Simulation`].
pub struct SimulationBuilder {
    pub world: World,
    pub dispatcher_builder: DispatcherBuilder,
    pub end_frame_systems_added: bool,
    pub plugins: Vec<String>,
}

impl SimulationBuilder {
    /// A fresh builder over an empty store, seeded with the two built-in
    /// stages: position integration (no predecessors), then force clearing.
    pub fn new() -> (b: SimulationBuilder)
        ensures
            b.world@ == empty_world_model(),
            b.world.wf(),
            b.plugins@ == Seq::<String>::empty(),
            !b.end_frame_systems_added,
            b.dispatcher_builder.barriers == 0,
            b.dispatcher_builder.systems@.len() == 2,
            b.dispatcher_builder.systems@[0].name@ == "integrate-position"@,
            b.dispatcher_builder.systems@[0].action == SystemAction::IntegratePosition,
            b.dispatcher_builder.systems@[0].region == 0,
            b.dispatcher_builder.systems@[0].predecessors@.len() == 0,
            b.dispatcher_builder.systems@[1].name@ == "clear"@,
            b.dispatcher_builder.systems@[1].action == SystemAction::ClearForces,
            b.dispatcher_builder.systems@[1].region == 0,
            b.dispatcher_builder.systems@[1].predecessors@.len() == 1,
            b.dispatcher_builder.systems@[1].predecessors@[0]@ == "integrate-position"@,
            b.dispatcher_builder.wf(),
    {
        let mut db = DispatcherBuilder::new();
        let r1 = db.add(
            SystemAction::IntegratePosition,
            String::from_str("integrate-position"),
            Vec::new(),
        );
        proof {
            assert(r1 is Ok);
        }
        let ghost sys1 = db.systems@;
        let mut preds: Vec<String> = Vec::new();
        preds.push(String::from_str("integrate-position"));
        let r2 = db.add(SystemAction::ClearForces, String::from_str("clear"), preds);
        proof {
            reveal_strlit("integrate-position");
            reveal_strlit("clear");
            assert("integrate-position"@.len() == 18);
            assert("clear"@.len() == 5);
            assert(sys1 =~= Seq::<RegisteredSystem>::empty().push(sys1.last()));
            lemma_has_name_push(Seq::empty(), sys1.last(), "clear"@);
            lemma_has_name_push(Seq::empty(), sys1.last(), "integrate-position"@);
            assert(r2 is Ok);
        }
        SimulationBuilder {
            world: World::new(),
            dispatcher_builder: db,
            end_frame_systems_added: false,
            plugins: Vec::new(),
        }
    }

    /// First declared dependency that has not been added yet, if any, paired
    /// with the requesting plugin's name.
    fn check_plugin_dependencies<P: Plugin>(&self, plugin: &P) -> (r: Option<(String, String)>)
        ensures
            match r {
                Some(p) => {
                    &&& p.0@ == plugin.spec_name()
                    &&& plugin.spec_deps().contains(p.1@)
                    &&& !plugin_registered(self.plugins@, p.1@)
                },
                None => forall|i: int|
                    0 <= i < plugin.spec_deps().len() ==> plugin_registered(
                        self.plugins@,
                        #[trigger] plugin.spec_deps()[i],
                    ),
            },
    {
        let deps = plugin.deps();
        let n = deps.len();
        for i in 0..n
            invariant
                n == deps@.len(),
                deps@.map_values(|s: String| s@) == plugin.spec_deps(),
                forall|k: int|
                    0 <= k < i ==> plugin_registered(
                        self.plugins@,
                        #[trigger] plugin.spec_deps()[k],
                    ),
        {
            if !contains_string(&self.plugins, &deps[i]) {
                proof {
                    assert(plugin.spec_deps()[i as int] == deps@[i as int]@);
                    assert(plugin.spec_deps().contains(deps@[i as int]@));
                }
                return Some((plugin.name(), deps[i].clone()));
            }
        }
        None
    }

    /// Add a plugin. Every dependency the plugin declares must name a plugin
    /// that has already been added; if one is missing, construction fails
    /// immediately, naming the requesting plugin and the missing dependency,
    /// and the builder is left untouched. Otherwise the plugin builds and its
    /// name is recorded.
    pub fn add_plugin<P: Plugin>(&mut self, plugin: P) -> (r: Result<(), BuildError>)
        ensures
            (r matches Err(BuildError::MissingDependency { .. })) <==> exists|i: int|
                0 <= i < plugin.spec_deps().len() && !plugin_registered(
                    old(self).plugins@,
                    #[trigger] plugin.spec_deps()[i],
                ),
            old(self).dispatcher_builder.wf() ==> final(self).dispatcher_builder.wf(),
            (forall|i: int|
                0 <= i < plugin.spec_deps().len() ==> plugin_registered(
                    old(self).plugins@,
                    #[trigger] plugin.spec_deps()[i],
                )) && plugin.build_accepts(graph_names(old(self).dispatcher_builder.systems@))
                ==> r is Ok,
            match r {
                Ok(_) => {
                    &&& forall|i: int|
                        0 <= i < plugin.spec_deps().len() ==> plugin_registered(
                            old(self).plugins@,
                            #[trigger] plugin.spec_deps()[i],
                        )
                    &&& final(self).plugins@.len() == old(self).plugins@.len() + 1
                    &&& final(self).plugins@.drop_last() == old(self).plugins@
                    &&& final(self).plugins@.last()@ == plugin.spec_name()
                    &&& final(self).end_frame_systems_added == old(self).end_frame_systems_added
                },
                Err(BuildError::MissingDependency { plugin: pn, dependency: dn }) => {
                    &&& pn@ == plugin.spec_name()
                    &&& plugin.spec_deps().contains(dn@)
                    &&& !plugin_registered(old(self).plugins@, dn@)
                    &&& *final(self) == *old(self)
                },
                Err(_) => {
                    &&& final(self).plugins@ == old(self).plugins@
                    &&& final(self).end_frame_systems_added == old(self).end_frame_systems_added
                },
            },
    {
        match self.check_plugin_dependencies(&plugin) {
            Some(missing) => Err(BuildError::MissingDependency {
                plugin: missing.0,
                dependency: missing.1,
            }),
            None => {
                match plugin.build(self) {
                    Ok(_) => {
                        let n = plugin.name();
                        self.plugins.push(n);
                        proof {
                            assert(final(self).plugins@.drop_last() =~= old(self).plugins@);
                        }
                        Ok(())
                    },
                    Err(e) => Err(e),
                }
            },
        }
    }

    /// Append the end-of-frame stages: a full synchronization barrier, then
    /// velocity integration, then the output system.
    pub fn add_end_frame_systems(&mut self) -> (r: Result<(), BuildError>)
        requires
            old(self).dispatcher_builder.barriers < usize::MAX,
        ensures
            final(self).world == old(self).world,
            final(self).plugins@ == old(self).plugins@,
            r is Ok <==> (!has_name(old(self).dispatcher_builder.systems@, "integrate-velocity"@)
                && !has_name(old(self).dispatcher_builder.systems@, "console-output"@)),
            r is Ok ==> ({
                let sys = final(self).dispatcher_builder.systems@;
                let n = old(self).dispatcher_builder.systems@.len() as int;
                &&& final(self).end_frame_systems_added
                &&& sys.len() == n + 2
                &&& sys.take(n) == old(self).dispatcher_builder.systems@
                &&& sys[n].name@ == "integrate-velocity"@
                &&& sys[n].action == SystemAction::IntegrateVelocity
                &&& sys[n].region == old(self).dispatcher_builder.barriers + 1
                &&& sys[n].predecessors@.len() == 0
                &&& sys[n + 1].name@ == "console-output"@
                &&& sys[n + 1].action == SystemAction::RecordOutput
                &&& sys[n + 1].region == old(self).dispatcher_builder.barriers + 1
                &&& sys[n + 1].predecessors@.len() == 1
                &&& sys[n + 1].predecessors@[0]@ == "integrate-velocity"@
                &&& final(self).dispatcher_builder.barriers == old(
                    self,
                ).dispatcher_builder.barriers + 1
            }),
            old(self).dispatcher_builder.wf() ==> final(self).dispatcher_builder.wf(),
    {
        let ghost sys0 = self.dispatcher_builder.systems@;
        self.dispatcher_builder.add_barrier();
        let r1 = self.dispatcher_builder.add(
            SystemAction::IntegrateVelocity,
            String::from_str("integrate-velocity"),
            Vec::new(),
        );
        match r1 {
            Err(e) => {
                return Err(e);
            },
            Ok(_) => {},
        }
        let mut preds: Vec<String> = Vec::new();
        preds.push(String::from_str("integrate-velocity"));
        let r2 = self.dispatcher_builder.add(
            SystemAction::RecordOutput,
            String::from_str("console-output"),
            preds,
        );
        proof {
            reveal_strlit("integrate-velocity");
            reveal_strlit("console-output");
            assert("integrate-velocity"@.len() == 18);
            assert("console-output"@.len() == 14);
            lemma_has_name_push(
                sys0,
                self.dispatcher_builder.systems@.last(),
                "console-output"@,
            );
        }
        match r2 {
            Err(e) => {
                return Err(e);
            },
            Ok(_) => {},
        }
        self.end_frame_systems_added = true;
        proof {
            assert(final(self).dispatcher_builder.systems@.take(sys0.len() as int) =~= sys0);
        }
        Ok(())
    }

    /// Build the simulation: append the end-frame stages if they are not yet
    /// added, validate the borrow sets of the execution graph, and bind the
    /// frozen dispatcher to the store with the tick counter reset to zero.
    pub fn build(self) -> (r: Result<Simulation, BuildError>)
        requires
            self.world.wf(),
            self.dispatcher_builder.wf(),
            self.dispatcher_builder.barriers < usize::MAX,
        ensures
            r is Ok <==> (regions_compatible(self.dispatcher_builder.systems@) && (
            self.end_frame_systems_added || (!has_name(
                self.dispatcher_builder.systems@,
                "integrate-velocity"@,
            ) && !has_name(self.dispatcher_builder.systems@, "console-output"@)))),
            match r {
                Ok(sim) => {
                    &&& sim.world.wf()
                    &&& sim.world@ == (WorldModel { step: 0, ..self.world@ })
                    &&& regions_compatible(sim.dispatcher.systems@)
                    &&& self.end_frame_systems_added ==> sim.dispatcher.systems@
                        == self.dispatcher_builder.systems@
                    &&& !self.end_frame_systems_added ==> ({
                        let sys = sim.dispatcher.systems@;
                        let n = self.dispatcher_builder.systems@.len() as int;
                        &&& sys.len() == n + 2
                        &&& sys.take(n) == self.dispatcher_builder.systems@
                        &&& sys[n].name@ == "integrate-velocity"@
                        &&& sys[n].action == SystemAction::IntegrateVelocity
                        &&& sys[n + 1].name@ == "console-output"@
                        &&& sys[n + 1].action == SystemAction::RecordOutput
                        &&& sys[n].region == self.dispatcher_builder.barriers + 1
                        &&& sys[n + 1].region == self.dispatcher_builder.barriers + 1
                    })
                },
                Err(_) => true,
            },
    {
        let ghost orig = self;
        let mut b = self;
        if !b.end_frame_systems_added {
            let r0 = b.add_end_frame_systems();
            match r0 {
                Err(e) => {
                    return Err(e);
                },
                Ok(_) => {
                    proof {
                        let sys0 = orig.dispatcher_builder.systems@;
                        let sysx = b.dispatcher_builder.systems@;
                        let n0 = sys0.len() as int;
                        assert(sysx =~= sys0.push(sysx[n0]).push(sysx[n0 + 1]));
                        assert forall|i: int|
                            0 <= i < sys0.len() implies (#[trigger] sys0[i]).region
                            != sysx[n0].region by {
                            assert(sys0[i].region <= orig.dispatcher_builder.barriers);
                        }
                        assert forall|i: int|
                            0 <= i < sys0.len() implies (#[trigger] sys0[i]).region != sysx[n0
                            + 1].region by {
                            assert(sys0[i].region <= orig.dispatcher_builder.barriers);
                        }
                        assert((2u32 & (1u32 | 256u32)) == 0u32) by (bit_vector);
                        assert((256u32 & 4u32) == 0u32) by (bit_vector);
                        assert(!spec_actions_conflict(
                            SystemAction::IntegrateVelocity,
                            SystemAction::RecordOutput,
                        ));
                        lemma_regions_compatible_append(sys0, sysx[n0], sysx[n0 + 1]);
                    }
                },
            }
        }
        let db = b.dispatcher_builder;
        match db.build() {
            Err(e) => Err(e),
            Ok(d) => {
                let mut world = b.world;
                world.step = 0;
                proof {
                    assert(world@ =~= (WorldModel { step: 0, ..self.world@ }));
                }
                Ok(Simulation { world, dispatcher: d })
            },
        }
    }
}

/// A built simulation: the store and the frozen dispatch graph.
pub struct Simulation {
    pub world: World,
    pub dispatcher: Dispatcher,
}

/// One tick: one traversal of the dispatch graph in registration order,
/// then the deferred-mutation commit, then a Step increment.
pub open spec fn tick_model(w: WorldModel, actions: Seq<SystemAction>) -> WorldModel {
    let w1 = commit_model(run_model(w, actions));
    WorldModel { step: (w1.step + 1) as u64, ..w1 }
}

impl Simulation {
    /// The simulation is well formed.
    pub open spec fn wf(&self) -> bool {
        self.world.wf()
    }

    /// Advance one tick: run every system of the graph, each on the state
    /// produced by completing all systems before it; commit the queued
    /// deletions at the single end-of-tick synchronization point; advance
    /// the tick counter.
    pub fn step(&mut self)
        requires
            old(self).wf(),
            old(self).world@.step < u64::MAX,
        ensures
            final(self).wf(),
            final(self).dispatcher == old(self).dispatcher,
            final(self).world@ == tick_model(old(self).world@, old(self).dispatcher.actions()),
            final(self).world@.step == old(self).world@.step + 1,
    {
        let ghost w0 = self.world@;
        self.dispatcher.dispatch(&mut self.world);
        proof {
            lemma_run_preserves_entities(w0, self.dispatcher.actions());
        }
        let ghost w1 = self.world@;
        self.world.maintain();
        proof {
            lemma_commit_list_resources(w1, w1.pending);
        }
        let s = self.world.step;
        self.world.step = s + 1;
        proof {
            assert(final(self).world@ =~= tick_model(w0, old(self).dispatcher.actions()));
        }
    }
}

/// Whether some added plugin carries this name.
fn contains_string(v: &Vec<String>, n: &String) -> (r: bool)
    ensures
        r == plugin_registered(v@, n@),
{
    let len = v.len();
    for j in 0..len
        invariant
            len == v@.len(),
            forall|k: int| 0 <= k < j ==> (#[trigger] v@[k])@ != n@,
    {
        if v[j] == *n {
            return true;
        }
    }
    false
}

} // verus!
