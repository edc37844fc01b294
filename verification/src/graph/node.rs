//! A node of the build graph.
use vstd::prelude::*;
use crate::parser::manifest::opt_view;
use crate::strmap::Duplicate;
use crate::text::views;

verus! {

/// A node in the build graph.
#[derive(Debug, Clone)]
pub struct Node {
    /// The output path this node produces.
    pub path: String,
    /// The expanded command to run.
    pub command: Option<String>,
    /// Pre-computed hash of the command.
    pub command_hash: u64,
    /// Human-readable description.
    pub description: Option<String>,
    /// Dependencies (paths of other nodes).
    pub deps: Vec<String>,
    /// Rule name.
    pub rule: String,
    /// Whether this is a phony target.
    pub is_phony: bool,
    /// Whether this is a source file (no build rule).
    pub is_source: bool,
    /// Whether to re-stat the outputs after running.
    pub restat: bool,
    /// Path to the depfile with discovered dependencies.
    pub depfile: String,
    /// Pool name for parallelism limiting.
    pub pool: Option<String>,
    /// Whether this is a generator rule.
    pub generator: bool,
    /// Response file path.
    pub rspfile: Option<String>,
    /// Response file content.
    pub rspfile_content: Option<String>,
}

/// The mathematical value of a `Node`.
pub struct NodeView {
    pub path: Seq<char>,
    pub command: Option<Seq<char>>,
    pub command_hash: u64,
    pub description: Option<Seq<char>>,
    pub deps: Seq<Seq<char>>,
    pub rule: Seq<char>,
    pub is_phony: bool,
    pub is_source: bool,
    pub restat: bool,
    pub depfile: Seq<char>,
    pub pool: Option<Seq<char>>,
    pub generator: bool,
    pub rspfile: Option<Seq<char>>,
    pub rspfile_content: Option<Seq<char>>,
}

impl View for Node {
    type V = NodeView;

    open spec fn view(&self) -> NodeView {
        NodeView {
            path: self.path@,
            command: opt_view(self.command),
            command_hash: self.command_hash,
            description: opt_view(self.description),
            deps: views(self.deps@),
            rule: self.rule@,
            is_phony: self.is_phony,
            is_source: self.is_source,
            restat: self.restat,
            depfile: self.depfile@,
            pool: opt_view(self.pool),
            generator: self.generator,
            rspfile: opt_view(self.rspfile),
            rspfile_content: opt_view(self.rspfile_content),
        }
    }
}

/// The node of a source file: only its path is set.
pub open spec fn source_node(path: Seq<char>) -> NodeView {
    NodeView {
        path,
        command: None,
        command_hash: 0,
        description: None,
        deps: Seq::empty(),
        rule: Seq::empty(),
        is_phony: false,
        is_source: true,
        restat: false,
        depfile: Seq::empty(),
        pool: None,
        generator: false,
        rspfile: None,
        rspfile_content: None,
    }
}

/// Whether a dependency's modification time is known and later than `t`.
pub open spec fn newer(d: Option<u128>, t: u128) -> bool {
    match d {
        Some(x) => x > t,
        None => false,
    }
}

/// Whether an output with modification time `out` (`None` when it does not
/// exist or cannot be read) is older than some dependency with a known
/// modification time in `deps`.
pub open spec fn stale(out: Option<u128>, deps: Seq<Option<u128>>) -> bool {
    match out {
        None => true,
        Some(t) => exists|i: int| 0 <= i < deps.len() && newer(#[trigger] deps[i], t),
    }
}

pub(crate) fn dup_opt(o: &Option<String>) -> (r: Option<String>)
    ensures
        opt_view(r) == opt_view(*o),
{
    match o {
        Some(s) => Some(s.clone()),
        None => None,
    }
}

pub(crate) fn dup_strings(v: &Vec<String>) -> (r: Vec<String>)
    ensures
        views(r@) == views(v@),
{
    let mut r: Vec<String> = Vec::new();
    let mut i: usize = 0;
    while i < v.len()
        invariant
            i <= v@.len(),
            views(r@) == views(v@.take(i as int)),
        decreases v.len() - i,
    {
        let ghost r0 = r@;
        r.push(v[i].clone());
        i = i + 1;
        proof {
            assert(v@.take(i as int) =~= v@.take(i - 1).push(v@[i - 1]));
            assert(views(r@) =~= views(r0).push(v@[i - 1]@));
            assert(views(v@.take(i as int)) =~= views(v@.take(i - 1)).push(v@[i - 1]@));
        }
    }
    proof {
        assert(v@.take(i as int) =~= v@);
    }
    r
}

impl Duplicate for Node {
    fn duplicate(&self) -> (r: Self) {
        Node {
            path: self.path.clone(),
            command: dup_opt(&self.command),
            command_hash: self.command_hash,
            description: dup_opt(&self.description),
            deps: dup_strings(&self.deps),
            rule: self.rule.clone(),
            is_phony: self.is_phony,
            is_source: self.is_source,
            restat: self.restat,
            depfile: self.depfile.clone(),
            pool: dup_opt(&self.pool),
            generator: self.generator,
            rspfile: dup_opt(&self.rspfile),
            rspfile_content: dup_opt(&self.rspfile_content),
        }
    }
}

impl Node {
    /// The node of a source file at `path`.
    pub fn source(path: String) -> (n: Self)
        ensures
            n@ == source_node(path@),
    {
        let n = Node {
            path,
            command: None,
            command_hash: 0,
            description: None,
            deps: Vec::new(),
            rule: String::new(),
            is_phony: false,
            is_source: true,
            restat: false,
            depfile: String::new(),
            pool: None,
            generator: false,
            rspfile: None,
            rspfile_content: None,
        };
        assert(views(n.deps@) =~= Seq::<Seq<char>>::empty());
        n
    }

    /// Whether this node needs to be rebuilt, given the modification time of
    /// its output (`None` when the output does not exist or its time cannot
    /// be read) and those of its dependencies (`None` for one that cannot be
    /// read, which is passed over).  Phony targets always run; source files
    /// never do.
    pub fn needs_rebuild(&self, output_mtime: Option<u128>, dep_mtimes: &Vec<Option<u128>>) -> (b:
        bool)
        ensures
            b == (self.is_phony || (!self.is_source && stale(output_mtime, dep_mtimes@))),
    {
        if self.is_phony {
            return true;
        }
        if self.is_source {
            return false;
        }
        let out = match output_mtime {
            None => {
                return true;
            },
            Some(t) => t,
        };
        let mut i: usize = 0;
        while i < dep_mtimes.len()
            invariant
                i <= dep_mtimes@.len(),
                output_mtime == Some(out),
                !self.is_phony,
                !self.is_source,
                forall|j: int| 0 <= j < i ==> !newer(#[trigger] dep_mtimes@[j], out),
            decreases dep_mtimes.len() - i,
        {
            match dep_mtimes[i] {
                Some(d) => {
                    if d > out {
                        assert(newer(dep_mtimes@[i as int], out));
                        return true;
                    }
                },
                None => {},
            }
            i = i + 1;
        }
        false
    }

    /// The text that shows this node: its description, else its command,
    /// else its path.
    pub fn display(&self) -> (s: &str)
        ensures
            s@ == match self.description {
                Some(d) => d@,
                None => match self.command {
                    Some(c) => c@,
                    None => self.path@,
                },
            },
    {
        match &self.description {
            Some(d) => d.as_str(),
            None => match &self.command {
                Some(c) => c.as_str(),
                None => self.path.as_str(),
            },
        }
    }
}

/// An output is out of date exactly when it is missing or some dependency
/// with a known modification time is strictly newer than it (the output's
/// time being `t`), wherever that dependency stands in the list;
/// dependencies with unknown times never make it out of date.
pub proof fn law_stale_any_newer_dependency(t: u128, deps: Seq<Option<u128>>)
    ensures
        stale(None, deps),
        forall|i: int|
            0 <= i < deps.len() && match #[trigger] deps[i] {
                Some(d) => d > t,
                None => false,
            } ==> stale(Some(t), deps),
        (forall|i: int|
            0 <= i < deps.len() ==> match #[trigger] deps[i] {
                Some(d) => d <= t,
                None => true,
            }) ==> !stale(Some(t), deps),
{
    assert forall|i: int|
        0 <= i < deps.len() && match #[trigger] deps[i] {
            Some(d) => d > t,
            None => false,
        } implies stale(Some(t), deps) by {
        assert(newer(deps[i], t));
    }
    if (forall|i: int|
        0 <= i < deps.len() ==> match #[trigger] deps[i] {
            Some(d) => d <= t,
            None => true,
        }) && stale(Some(t), deps) {
        let i = choose|i: int| 0 <= i < deps.len() && newer(#[trigger] deps[i], t);
        assert(match deps[i] {
            Some(d) => d <= t,
            None => true,
        });
    }
}

} // verus!
