//! The parsed form of a ninja manifest.
use vstd::prelude::*;
use crate::strmap::{Duplicate, StrMap};
use crate::text::views;

verus! {

/// The view of an optional string.
pub open spec fn opt_view(o: Option<String>) -> Option<Seq<char>> {
    match o {
        Some(s) => Some(s@),
        None => None,
    }
}

fn dup_opt(o: &Option<String>) -> (r: Option<String>)
    ensures
        opt_view(r) == opt_view(*o),
{
    match o {
        Some(s) => Some(s.clone()),
        None => None,
    }
}

fn dup_strings(v: &Vec<String>) -> (r: Vec<String>)
    ensures
        views(r@) == views(v@),
{
    let mut r: Vec<String> = Vec::new();
    let mut i: usize = 0;
    while i < v.len()
        invariant
            i <= v@.len(),
            views(r@) == views(v@.take(i as int)),
        decreases v.len() - i,
    {
        let ghost r0 = r@;
        r.push(v[i].clone());
        i = i + 1;
        proof {
            assert(v@.take(i as int) =~= v@.take(i - 1).push(v@[i - 1]));
            assert(views(r@) =~= views(r0).push(v@[i - 1]@));
            assert(views(v@.take(i as int)) =~= views(v@.take(i - 1)).push(v@[i - 1]@));
        }
    }
    proof {
        assert(v@.take(i as int) =~= v@);
    }
    r
}

/// A parsed ninja manifest (a `build.ninja` file).
#[derive(Debug, Clone)]
pub struct Manifest {
    /// Top-level variables.
    pub variables: StrMap<String>,
    /// Rule definitions.
    pub rules: StrMap<Rule>,
    /// Build edges.
    pub builds: Vec<Build>,
    /// Default targets.
    pub defaults: Vec<String>,
    /// Pool definitions.
    pub pools: StrMap<Pool>,
    /// Included files (processed in the same scope).
    pub includes: Vec<String>,
    /// Subninja files (processed in a separate scope).
    pub subninjas: Vec<String>,
}

/// A rule definition.
#[derive(Debug, Clone)]
pub struct Rule {
    pub name: String,
    /// The command to run.
    pub command: Option<String>,
    /// Human-readable description.
    pub description: Option<String>,
    /// Path to the depfile with implicit dependencies.
    pub depfile: Option<String>,
    /// Dependency style: gcc or msvc.
    pub deps: Option<String>,
    /// Whether the rule regenerates the manifest.
    pub generator: bool,
    /// Whether outputs are re-stat'ed after the command.
    pub restat: bool,
    /// Response file path.
    pub rspfile: Option<String>,
    /// Response file content.
    pub rspfile_content: Option<String>,
    /// Pool to use for this rule.
    pub pool: Option<String>,
    /// Additional variables.
    pub variables: StrMap<String>,
}

/// A build edge.
#[derive(Debug, Clone)]
pub struct Build {
    /// Output files.
    pub outputs: Vec<String>,
    /// Implicit outputs.
    pub implicit_outputs: Vec<String>,
    /// Rule name.
    pub rule: String,
    /// Explicit input files.
    pub inputs: Vec<String>,
    /// Implicit dependencies (after `|`).
    pub implicit_deps: Vec<String>,
    /// Order-only dependencies (after `||`).
    pub order_only_deps: Vec<String>,
    /// Build-specific variable overrides.
    pub variables: StrMap<String>,
}

/// A pool that limits parallelism.
#[derive(Debug, Clone)]
pub struct Pool {
    pub name: String,
    /// Maximum number of concurrent jobs.
    pub depth: usize,
}

/// The mathematical value of a `Rule`.
pub struct RuleView {
    pub name: Seq<char>,
    pub command: Option<Seq<char>>,
    pub description: Option<Seq<char>>,
    pub depfile: Option<Seq<char>>,
    pub deps: Option<Seq<char>>,
    pub generator: bool,
    pub restat: bool,
    pub rspfile: Option<Seq<char>>,
    pub rspfile_content: Option<Seq<char>>,
    pub pool: Option<Seq<char>>,
    pub variables: Seq<(Seq<char>, Seq<char>)>,
}

/// The mathematical value of a `Build`.
pub struct BuildView {
    pub outputs: Seq<Seq<char>>,
    pub implicit_outputs: Seq<Seq<char>>,
    pub rule: Seq<char>,
    pub inputs: Seq<Seq<char>>,
    pub implicit_deps: Seq<Seq<char>>,
    pub order_only_deps: Seq<Seq<char>>,
    pub variables: Seq<(Seq<char>, Seq<char>)>,
}

/// The mathematical value of a `Pool`.
pub struct PoolView {
    pub name: Seq<char>,
    pub depth: nat,
}

/// The mathematical value of a `Manifest`.
pub struct ManifestView {
    pub variables: Seq<(Seq<char>, Seq<char>)>,
    pub rules: Seq<(Seq<char>, RuleView)>,
    pub builds: Seq<BuildView>,
    pub defaults: Seq<Seq<char>>,
    pub pools: Seq<(Seq<char>, PoolView)>,
    pub includes: Seq<Seq<char>>,
    pub subninjas: Seq<Seq<char>>,
}

impl View for Rule {
    type V = RuleView;

    open spec fn view(&self) -> RuleView {
        RuleView {
            name: self.name@,
            command: opt_view(self.command),
            description: opt_view(self.description),
            depfile: opt_view(self.depfile),
            deps: opt_view(self.deps),
            generator: self.generator,
            restat: self.restat,
            rspfile: opt_view(self.rspfile),
            rspfile_content: opt_view(self.rspfile_content),
            pool: opt_view(self.pool),
            variables: self.variables@,
        }
    }
}

impl View for Build {
    type V = BuildView;

    open spec fn view(&self) -> BuildView {
        BuildView {
            outputs: views(self.outputs@),
            implicit_outputs: views(self.implicit_outputs@),
            rule: self.rule@,
            inputs: views(self.inputs@),
            implicit_deps: views(self.implicit_deps@),
            order_only_deps: views(self.order_only_deps@),
            variables: self.variables@,
        }
    }
}

impl View for Pool {
    type V = PoolView;

    open spec fn view(&self) -> PoolView {
        PoolView { name: self.name@, depth: self.depth as nat }
    }
}

/// The views of a sequence of build edges.
pub open spec fn build_views(v: Seq<Build>) -> Seq<BuildView> {
    v.map_values(|b: Build| b@)
}

impl View for Manifest {
    type V = ManifestView;

    open spec fn view(&self) -> ManifestView {
        ManifestView {
            variables: self.variables@,
            rules: self.rules@,
            builds: build_views(self.builds@),
            defaults: views(self.defaults@),
            pools: self.pools@,
            includes: views(self.includes@),
            subninjas: views(self.subninjas@),
        }
    }
}

/// A rule with only its name set.
pub open spec fn named_rule(name: Seq<char>) -> RuleView {
    RuleView {
        name,
        command: None,
        description: None,
        depfile: None,
        deps: None,
        generator: false,
        restat: false,
        rspfile: None,
        rspfile_content: None,
        pool: None,
        variables: Seq::empty(),
    }
}

/// The empty manifest.
pub open spec fn empty_manifest() -> ManifestView {
    ManifestView {
        variables: Seq::empty(),
        rules: Seq::empty(),
        builds: Seq::empty(),
        defaults: Seq::empty(),
        pools: Seq::empty(),
        includes: Seq::empty(),
        subninjas: Seq::empty(),
    }
}

impl Duplicate for Rule {
    fn duplicate(&self) -> (r: Self) {
        Rule {
            name: self.name.clone(),
            command: dup_opt(&self.command),
            description: dup_opt(&self.description),
            depfile: dup_opt(&self.depfile),
            deps: dup_opt(&self.deps),
            generator: self.generator,
            restat: self.restat,
            rspfile: dup_opt(&self.rspfile),
            rspfile_content: dup_opt(&self.rspfile_content),
            pool: dup_opt(&self.pool),
            variables: self.variables.duplicate(),
        }
    }
}

impl Duplicate for Pool {
    fn duplicate(&self) -> (r: Self) {
        Pool { name: self.name.clone(), depth: self.depth }
    }
}

impl Rule {
    /// A rule with only its name set: no command, no variables, every flag off.
    pub fn named(name: String) -> (r: Self)
        ensures
            r@ == named_rule(name@),
    {
        Rule {
            name,
            command: None,
            description: None,
            depfile: None,
            deps: None,
            generator: false,
            restat: false,
            rspfile: None,
            rspfile_content: None,
            pool: None,
            variables: StrMap::new(),
        }
    }
}

impl Default for Pool {
    fn default() -> (p: Self)
        ensures
            p@ == (PoolView { name: Seq::empty(), depth: 1 }),
    {
        Pool { name: String::new(), depth: 1 }
    }
}

impl Manifest {
    /// The empty manifest.
    pub fn new() -> (m: Self)
        ensures
            m@ == empty_manifest(),
    {
        let m = Manifest {
            variables: StrMap::new(),
            rules: StrMap::new(),
            builds: Vec::new(),
            defaults: Vec::new(),
            pools: StrMap::new(),
            includes: Vec::new(),
            subninjas: Vec::new(),
        };
        proof {
            assert(build_views(m.builds@) =~= Seq::<BuildView>::empty());
            assert(views(m.defaults@) =~= Seq::<Seq<char>>::empty());
            assert(views(m.includes@) =~= Seq::<Seq<char>>::empty());
            assert(views(m.subninjas@) =~= Seq::<Seq<char>>::empty());
        }
        m
    }
}

impl Default for Manifest {
    fn default() -> (m: Self)
        ensures
            m@ == empty_manifest(),
    {
        Manifest::new()
    }
}

impl Build {
    /// All dependencies: explicit inputs, then implicit, then order-only.
    pub fn all_deps(&self) -> (r: Vec<String>)
        ensures
            views(r@) == views(self.inputs@) + views(self.implicit_deps@) + views(
                self.order_only_deps@,
            ),
    {
        let mut r = dup_strings(&self.inputs);
        let mut b = dup_strings(&self.implicit_deps);
        let mut c = dup_strings(&self.order_only_deps);
        let ghost (r0, b0, c0) = (r@, b@, c@);
        r.append(&mut b);
        r.append(&mut c);
        proof {
            assert(views(r@) =~= views(r0) + views(b0) + views(c0));
        }
        r
    }

    /// All outputs: explicit, then implicit.
    pub fn all_outputs(&self) -> (r: Vec<String>)
        ensures
            views(r@) == views(self.outputs@) + views(self.implicit_outputs@),
    {
        let mut r = dup_strings(&self.outputs);
        let mut b = dup_strings(&self.implicit_outputs);
        let ghost (r0, b0) = (r@, b@);
        r.append(&mut b);
        proof {
            assert(views(r@) =~= views(r0) + views(b0));
        }
        r
    }
}

} // verus!
