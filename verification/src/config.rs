//! The configuration: mappings, platform filters, and the ignore file.

use vstd::prelude::*;

use crate::fsmodel::FsNode;
use crate::ops::{link_file_or_dir, ops_view, opt_node, plan_spec, Op, OpView, PlanError};
use crate::paths::{join, spec_join, spec_starts_with, starts_with_char};

verus! {

/// An operating system a mapping may be restricted to.
#[derive(Debug, Clone, Copy, PartialEq, Eq, Structural)]
pub enum Platfrom {
    Linux,
    Darwin,
    Window,
}

/// One mapping as written in the configuration file, before defaults
/// are applied.
#[derive(Debug, Clone)]
pub struct ConfigFileEntry {
    pub from: String,
    pub to: String,
    pub platforms: Option<Vec<Platfrom>>,
    pub encrypt: Option<bool>,
}

/// The whole configuration file, before defaults are applied.
#[derive(Debug, Clone)]
pub struct ConfigFileStruct {
    pub entries: Vec<ConfigFileEntry>,
    pub gitignore: String,
}

/// One source-to-target mapping with defaults applied.  Paths are kept
/// as the caller hands them over; any `~` expansion happens before the
/// entry is built.
#[derive(Debug, Clone)]
pub struct Entry {
    pub from: String,
    pub to: String,
    pub platforms: Vec<Platfrom>,
    pub encrypt: bool,
}

impl Entry {
    /// Whether this entry applies on the given platform.
    pub fn match_platform(&self, current: Platfrom) -> (r: bool)
        ensures
            r == self.platforms@.contains(current),
    {
        let n = self.platforms.len();
        let mut i: usize = 0;
        while i < n
            invariant
                i <= n,
                n == self.platforms@.len(),
                forall|k: int| 0 <= k < i ==> self.platforms@[k] != current,
            decreases n - i,
        {
            if self.platforms[i] == current {
                return true;
            }
            i = i + 1;
        }
        false
    }

    /// The planner's source path for this entry: the entry's own path
    /// when it is already anchored (starts with `/` or `~`), otherwise
    /// the path relative to the configuration file's directory.
    pub open spec fn spec_resolved_from(self, base_dir: Seq<char>) -> Seq<char> {
        if spec_starts_with(self.from@, '/') || spec_starts_with(self.from@, '~') {
            self.from@
        } else {
            spec_join(base_dir, self.from@)
        }
    }

    /// The planner's source path for this entry, resolved against the
    /// configuration file's directory.
    pub fn resolved_from(&self, base_dir: &String) -> (r: String)
        ensures
            r@ == self.spec_resolved_from(base_dir@),
    {
        if starts_with_char(&self.from, '/') || starts_with_char(&self.from, '~') {
            self.from.clone()
        } else {
            join(base_dir, &self.from)
        }
    }

    /// Resolves the source path against the configuration directory and
    /// plans this entry's operations from a snapshot of both sides of
    /// the mapping.
    pub fn create_ops(
        &self,
        base_dir: &String,
        src: &FsNode,
        tgt: Option<&FsNode>,
        to_parent_exists: bool,
    ) -> (r: Result<Vec<Op>, PlanError>)
        ensures
            match plan_spec(
                self.spec_resolved_from(base_dir@),
                *src,
                self.to@,
                opt_node(tgt),
                to_parent_exists,
            ) {
                Ok(ops) => r is Ok && ops_view(r->Ok_0@) == ops,
                Err(e) => r is Err && r->Err_0@ == e,
            },
    {
        let from = self.resolved_from(base_dir);
        let mut result: Vec<Op> = Vec::new();
        proof {
            assert(ops_view(result@) =~= Seq::<OpView>::empty());
        }
        match link_file_or_dir(&from, src, &self.to, tgt, to_parent_exists, &mut result) {
            Ok(_) => {
                proof {
                    let ops = plan_spec(
                        self.spec_resolved_from(base_dir@),
                        *src,
                        self.to@,
                        opt_node(tgt),
                        to_parent_exists,
                    )->Ok_0;
                    assert(Seq::<OpView>::empty() + ops =~= ops);
                }
                Ok(result)
            },
            Err(e) => Err(e),
        }
    }
}

/// The configuration: the mappings to deploy and the ignore file to
/// keep in sync.
#[derive(Debug, Clone)]
pub struct Config {
    pub entries: Vec<Entry>,
    pub gitignore: String,
}

impl Config {
    /// Applies the file's defaults: an absent platform list admits
    /// every platform, and encryption defaults to off.
    pub fn from(c: ConfigFileStruct) -> (r: Config)
        ensures
            r.gitignore@ == c.gitignore@,
            r.entries@.len() == c.entries@.len(),
            forall|i: int|
                0 <= i < c.entries@.len() ==> {
                    let e = c.entries@[i];
                    let re = #[trigger] r.entries@[i];
                    re.from@ == e.from@ && re.to@ == e.to@ && re.encrypt == (match e.encrypt {
                        Some(b) => b,
                        None => false,
                    }) && re.platforms@ == (match e.platforms {
                        Some(ps) => ps@,
                        None => seq![Platfrom::Linux, Platfrom::Darwin, Platfrom::Window],
                    })
                },
    {
        let mut entries: Vec<Entry> = Vec::new();
        let n = c.entries.len();
        let mut i: usize = 0;
        while i < n
            invariant
                i <= n,
                n == c.entries@.len(),
                entries@.len() == i,
                forall|k: int|
                    0 <= k < i ==> {
                        let e = c.entries@[k];
                        let re = #[trigger] entries@[k];
                        re.from@ == e.from@ && re.to@ == e.to@ && re.encrypt == (match e.encrypt {
                            Some(b) => b,
                            None => false,
                        }) && re.platforms@ == (match e.platforms {
                            Some(ps) => ps@,
                            None => seq![Platfrom::Linux, Platfrom::Darwin, Platfrom::Window],
                        })
                    },
            decreases n - i,
        {
            let e = &c.entries[i];
            let platforms: Vec<Platfrom> = match &e.platforms {
                Some(ps) => {
                    let m = ps.len();
                    let mut v: Vec<Platfrom> = Vec::new();
                    let mut k: usize = 0;
                    while k < m
                        invariant
                            k <= m,
                            m == ps@.len(),
                            v@ == ps@.take(k as int),
                        decreases m - k,
                    {
                        v.push(ps[k]);
                        proof {
                            assert(v@ =~= ps@.take(k + 1));
                        }
                        k = k + 1;
                    }
                    proof {
                        assert(ps@.take(m as int) =~= ps@);
                    }
                    v
                },
                None => {
                    let mut v: Vec<Platfrom> = Vec::new();
                    v.push(Platfrom::Linux);
                    v.push(Platfrom::Darwin);
                    v.push(Platfrom::Window);
                    proof {
                        assert(v@ =~= seq![Platfrom::Linux, Platfrom::Darwin, Platfrom::Window]);
                    }
                    v
                },
            };
            let encrypt = match &e.encrypt {
                Some(b) => *b,
                None => false,
            };
            entries.push(
                Entry { from: e.from.clone(), to: e.to.clone(), platforms, encrypt },
            );
            i = i + 1;
        }
        Config { entries, gitignore: c.gitignore }
    }
}

} // verus!
