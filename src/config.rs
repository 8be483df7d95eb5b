use vstd::prelude::*;
use vstd::string::*;
use crate::error::{DriftersError, Result};
use crate::fileset::override_of;
use crate::strmap::{keys_unique, StrMap};
use crate::text::{component_name_ok, is_component_name, texts};

verus! {

/// Extra patterns for one machine.
#[derive(Debug, Clone)]
pub struct MachineOverride {
    pub includes: Vec<String>,
    pub exclude: Vec<String>,
}

impl Default for MachineOverride {
    fn default() -> (r: Self)
        ensures
            r.includes@.len() == 0,
            r.exclude@.len() == 0,
    {
        MachineOverride { includes: Vec::new(), exclude: Vec::new() }
    }
}

/// The sync rules of one app: patterns for every machine, per operating system, and per
/// machine.
#[derive(Debug, Clone)]
pub struct AppConfig {
    pub includes: Vec<String>,
    pub exclude: Vec<String>,
    pub include_macos: Vec<String>,
    pub include_linux: Vec<String>,
    pub include_windows: Vec<String>,
    pub exclude_macos: Vec<String>,
    pub exclude_linux: Vec<String>,
    pub exclude_windows: Vec<String>,
    pub machines: StrMap<MachineOverride>,
}

impl AppConfig {
    /// No pattern at all, and no machine override.
    pub open spec fn is_blank(self) -> bool {
        &&& self.includes@.len() == 0
        &&& self.exclude@.len() == 0
        &&& self.include_macos@.len() == 0
        &&& self.include_linux@.len() == 0
        &&& self.include_windows@.len() == 0
        &&& self.exclude_macos@.len() == 0
        &&& self.exclude_linux@.len() == 0
        &&& self.exclude_windows@.len() == 0
        &&& self.machines.wf()
        &&& self.machines@ == Map::<Seq<char>, MachineOverride>::empty()
    }
}

impl Default for AppConfig {
    fn default() -> (r: Self)
        ensures
            r.is_blank(),
    {
        AppConfig {
            includes: Vec::new(),
            exclude: Vec::new(),
            include_macos: Vec::new(),
            include_linux: Vec::new(),
            include_windows: Vec::new(),
            exclude_macos: Vec::new(),
            exclude_linux: Vec::new(),
            exclude_windows: Vec::new(),
            machines: StrMap::new(),
        }
    }
}

/// The sync rules of every app, by app name.
#[derive(Debug, Clone)]
pub struct SyncRules {
    pub apps: StrMap<AppConfig>,
}

impl SyncRules {
    pub fn new() -> (r: Self)
        ensures
            r.apps.wf(),
            r.apps@ == Map::<Seq<char>, AppConfig>::empty(),
    {
        SyncRules { apps: StrMap::new() }
    }

    /// Sets the rules of the app `app_name`, replacing any it had.
    pub fn add_app(&mut self, app_name: String, config: AppConfig)
        requires
            old(self).apps.wf(),
        ensures
            final(self).apps.wf(),
            final(self).apps@ == old(self).apps@.insert(app_name@, config),
    {
        self.apps.insert(app_name, config);
    }
}

/// The pattern that leaves the file `filename` out wherever it lies.
pub open spec fn file_exclude_pattern(filename: Seq<char>) -> Seq<char> {
    "**/"@ + filename
}

/// Whether some string of `v` has the text of `t`.
pub fn contains_text(v: &Vec<String>, t: &String) -> (r: bool)
    ensures
        r == texts(v@).contains(t@),
{
    let mut i: usize = 0;
    while i < v.len()
        invariant
            i <= v@.len(),
            forall|j: int| 0 <= j < i ==> texts(v@)[j] != t@,
        decreases v@.len() - i,
    {
        if v[i] == *t {
            assert(texts(v@)[i as int] == t@);
            return true;
        }
        i = i + 1;
    }
    false
}

impl SyncRules {
    /// Leaves the file `filename` out of the app `app_name` on the machine `machine_id`,
    /// by adding `**/<filename>` to that machine's excluding patterns. Answers whether the
    /// pattern was added (it is not added twice); an unknown app is an error.
    pub fn exclude_for_machine(&mut self, app_name: &str, machine_id: &str, filename: &str) -> (r:
        Result<bool>)
        requires
            old(self).apps.wf(),
            old(self).apps@.contains_key(app_name@) ==> old(self).apps@[app_name@].machines.wf(),
        ensures
            final(self).apps.wf(),
            !old(self).apps@.contains_key(app_name@) ==> (r matches Err(DriftersError::AppNotFound(_))),
            !old(self).apps@.contains_key(app_name@) ==> final(self).apps@ == old(self).apps@,
            old(self).apps@.contains_key(app_name@) ==> ({
                let a0 = old(self).apps@[app_name@];
                let a1 = final(self).apps@[app_name@];
                let pat = file_exclude_pattern(filename@);
                let before = match override_of(a0, machine_id@) {
                    Some(o) => texts(o.exclude@),
                    None => Seq::empty(),
                };
                let kept = match override_of(a0, machine_id@) {
                    Some(o) => texts(o.includes@),
                    None => Seq::empty(),
                };
                &&& r == Ok::<bool, DriftersError>(!before.contains(pat))
                &&& final(self).apps@ == old(self).apps@.insert(app_name@, a1)
                &&& a1.includes == a0.includes
                &&& a1.exclude == a0.exclude
                &&& a1.include_macos == a0.include_macos
                &&& a1.include_linux == a0.include_linux
                &&& a1.include_windows == a0.include_windows
                &&& a1.exclude_macos == a0.exclude_macos
                &&& a1.exclude_linux == a0.exclude_linux
                &&& a1.exclude_windows == a0.exclude_windows
                &&& a1.machines.wf()
                &&& a1.machines@.contains_key(machine_id@)
                &&& a1.machines@.remove(machine_id@) == a0.machines@.remove(machine_id@)
                &&& texts(a1.machines@[machine_id@].includes@) == kept
                &&& texts(a1.machines@[machine_id@].exclude@) == if before.contains(pat) {
                    before
                } else {
                    before.push(pat)
                }
            }),
    {
        let mut app = match self.apps.remove(app_name) {
            Some(a) => a,
            None => {
                proof {
                    assert(self.apps@ =~= old(self).apps@);
                }
                return Err(DriftersError::AppNotFound(String::from_str(app_name)));
            },
        };
        let ghost a0 = app;
        let mut o = match app.machines.remove(machine_id) {
            Some(o) => o,
            None => MachineOverride::default(),
        };
        let ghost o0 = o;
        proof {
            assert(texts(o0.exclude@) == match override_of(a0, machine_id@) {
                Some(x) => texts(x.exclude@),
                None => Seq::<Seq<char>>::empty(),
            }) by {
                if !a0.machines@.contains_key(machine_id@) {
                    assert(texts(o0.exclude@) =~= Seq::<Seq<char>>::empty());
                }
            }
            assert(texts(o0.includes@) == match override_of(a0, machine_id@) {
                Some(x) => texts(x.includes@),
                None => Seq::<Seq<char>>::empty(),
            }) by {
                if !a0.machines@.contains_key(machine_id@) {
                    assert(texts(o0.includes@) =~= Seq::<Seq<char>>::empty());
                }
            }
        }
        let pat = String::from_str("**/").concat(filename);
        let present = contains_text(&o.exclude, &pat);
        if !present {
            o.exclude.push(pat);
            proof {
                assert(texts(o.exclude@) =~= texts(o0.exclude@).push(file_exclude_pattern(filename@)));
            }
        }
        let ghost m_before = app.machines@;
        app.machines.insert(String::from_str(machine_id), o);
        proof {
            assert(app.machines@.remove(machine_id@) =~= a0.machines@.remove(machine_id@));
        }
        let ghost a1 = app;
        self.apps.insert(String::from_str(app_name), app);
        proof {
            assert(self.apps@ =~= old(self).apps@.insert(app_name@, a1));
        }
        Ok(!present)
    }
}

/// `m` with the entry under `from` moved to `to`, if there is one.
pub open spec fn renamed_key<V>(m: Map<Seq<char>, V>, from: Seq<char>, to: Seq<char>) -> Map<Seq<char>, V> {
    if m.contains_key(from) {
        m.remove(from).insert(to, m[from])
    } else {
        m
    }
}

/// `a` and `b` hold the same app-wide and operating-system patterns.
pub open spec fn same_patterns(a: AppConfig, b: AppConfig) -> bool {
    &&& a.includes == b.includes
    &&& a.exclude == b.exclude
    &&& a.include_macos == b.include_macos
    &&& a.include_linux == b.include_linux
    &&& a.include_windows == b.include_windows
    &&& a.exclude_macos == b.exclude_macos
    &&& a.exclude_linux == b.exclude_linux
    &&& a.exclude_windows == b.exclude_windows
}

/// Every app's machine overrides are well formed.
pub open spec fn overrides_wf(apps: Map<Seq<char>, AppConfig>) -> bool {
    forall|k: Seq<char>| #[trigger] apps.contains_key(k) ==> apps[k].machines.wf()
}

impl SyncRules {
    /// Gives the app `old_name` the name `new_name`. The new name must be a single path
    /// component, differ from the old one and be free; the old one must exist.
    pub fn rename_app(&mut self, old_name: &str, new_name: &str) -> (r: Result<()>)
        requires
            old(self).apps.wf(),
        ensures
            final(self).apps.wf(),
            r is Ok <==> (is_component_name(new_name@) && new_name@ != old_name@
                && old(self).apps@.contains_key(old_name@) && !old(self).apps@.contains_key(new_name@)),
            r is Ok ==> final(self).apps@ == old(self).apps@.remove(old_name@).insert(
                new_name@,
                old(self).apps@[old_name@],
            ),
            r is Err ==> final(self).apps@ == old(self).apps@,
            (is_component_name(new_name@) && new_name@ != old_name@ && !old(self).apps@.contains_key(
                old_name@,
            )) ==> (r matches Err(DriftersError::AppNotFound(_))),
    {
        if !component_name_ok(new_name) {
            return Err(DriftersError::config("New app name cannot be empty or contain '/' or '\\'."));
        }
        let same = crate::text::chars_eq_str(&crate::text::chars_of(new_name), old_name);
        if same {
            return Err(DriftersError::config("New app name is the same as the current one."));
        }
        if self.apps.get(new_name).is_some() {
            if self.apps.get(old_name).is_none() {
                return Err(DriftersError::AppNotFound(String::from_str(old_name)));
            }
            return Err(DriftersError::config("An app of the new name already exists."));
        }
        match self.apps.remove(old_name) {
            Some(app) => {
                self.apps.insert(String::from_str(new_name), app);
                Ok(())
            },
            None => {
                proof {
                    assert(self.apps@ =~= old(self).apps@);
                }
                Err(DriftersError::AppNotFound(String::from_str(old_name)))
            },
        }
    }

    /// Moves every app's override of the machine `from` to the machine `to`.
    pub fn rename_machine_overrides(&mut self, from: &str, to: &str)
        requires
            old(self).apps.wf(),
            overrides_wf(old(self).apps@),
        ensures
            final(self).apps.wf(),
            overrides_wf(final(self).apps@),
            final(self).apps@.dom() == old(self).apps@.dom(),
            forall|k: Seq<char>| #[trigger] old(self).apps@.contains_key(k) ==> {
                &&& same_patterns(final(self).apps@[k], old(self).apps@[k])
                &&& final(self).apps@[k].machines@ == renamed_key(old(self).apps@[k].machines@, from@, to@)
            },
    {
        self.update_overrides(from, to, true)
    }

    /// Drops every app's override of the machine `machine_id`.
    pub fn remove_machine_overrides(&mut self, machine_id: &str)
        requires
            old(self).apps.wf(),
            overrides_wf(old(self).apps@),
        ensures
            final(self).apps.wf(),
            overrides_wf(final(self).apps@),
            final(self).apps@.dom() == old(self).apps@.dom(),
            forall|k: Seq<char>| #[trigger] old(self).apps@.contains_key(k) ==> {
                &&& same_patterns(final(self).apps@[k], old(self).apps@[k])
                &&& final(self).apps@[k].machines@ == old(self).apps@[k].machines@.remove(machine_id@)
            },
    {
        self.update_overrides(machine_id, machine_id, false)
    }

    fn update_overrides(&mut self, from: &str, to: &str, keep: bool)
        requires
            old(self).apps.wf(),
            overrides_wf(old(self).apps@),
        ensures
            final(self).apps.wf(),
            overrides_wf(final(self).apps@),
            final(self).apps@.dom() == old(self).apps@.dom(),
            forall|k: Seq<char>| #[trigger] old(self).apps@.contains_key(k) ==> {
                &&& same_patterns(final(self).apps@[k], old(self).apps@[k])
                &&& final(self).apps@[k].machines@ == if keep {
                    renamed_key(old(self).apps@[k].machines@, from@, to@)
                } else {
                    old(self).apps@[k].machines@.remove(from@)
                }
            },
    {
        let ghost s0 = self.apps.items();
        proof {
            self.apps.lemma_view();
            assert forall|j: int| 0 <= j < s0.len() implies (#[trigger] s0[j]).1.machines.wf() by {
                assert(self.apps@.contains_key(s0[j].0));
            }
        }
        let n = self.apps.len();
        let mut i: usize = 0;
        while i < n
            invariant
                self.apps.wf(),
                n == s0.len(),
                i <= n,
                self.apps.items().len() == n,
                s0 == old(self).apps.items(),
                keys_unique(s0),
                forall|j: int| 0 <= j < n ==> #[trigger] self.apps.items()[j].0 == s0[j].0,
                forall|j: int| 0 <= j < n ==> (#[trigger] s0[j]).1.machines.wf(),
                forall|j: int| i <= j < n ==> #[trigger] self.apps.items()[j] == s0[j],
                forall|j: int| 0 <= j < i ==> {
                    let a = (#[trigger] self.apps.items()[j]).1;
                    &&& same_patterns(a, s0[j].1)
                    &&& a.machines.wf()
                    &&& a.machines@ == if keep {
                        renamed_key(s0[j].1.machines@, from@, to@)
                    } else {
                        s0[j].1.machines@.remove(from@)
                    }
                },
            decreases n - i,
        {
            let mut app = self.apps.set_value_at(i, AppConfig::default());
            let ghost a0 = app;
            assert(a0 == s0[i as int].1);
            match app.machines.remove(from) {
                Some(o) => {
                    if keep {
                        app.machines.insert(String::from_str(to), o);
                    }
                },
                None => {},
            }
            let ghost a1 = app;
            self.apps.set_value_at(i, app);
            proof {
                assert(self.apps.items()[i as int] == (s0[i as int].0, a1));
            }
            i = i + 1;
        }
        proof {
            self.apps.lemma_view();
            let s1 = self.apps.items();
            assert forall|k: Seq<char>| #[trigger] self.apps@.contains_key(k) <==> old(self).apps@.contains_key(k) by {
                if self.apps@.contains_key(k) {
                    let q = choose|q: int| 0 <= q < s1.len() && s1[q].0 == k;
                    assert(old(self).apps@.contains_key(s0[q].0));
                }
                if old(self).apps@.contains_key(k) {
                    let q = choose|q: int| 0 <= q < s0.len() && s0[q].0 == k;
                    assert(self.apps@.contains_key(s1[q].0));
                }
            }
            assert(self.apps@.dom() =~= old(self).apps@.dom());
            assert forall|k: Seq<char>| #[trigger] old(self).apps@.contains_key(k) implies {
                &&& same_patterns(self.apps@[k], old(self).apps@[k])
                &&& self.apps@[k].machines.wf()
                &&& self.apps@[k].machines@ == if keep {
                    renamed_key(old(self).apps@[k].machines@, from@, to@)
                } else {
                    old(self).apps@[k].machines@.remove(from@)
                }
            } by {
                let q = choose|q: int| 0 <= q < s0.len() && s0[q].0 == k;
                assert(self.apps@.contains_key(s1[q].0));
            }
        }
    }
}

impl Default for SyncRules {
    fn default() -> (r: Self)
        ensures
            r.apps.wf(),
            r.apps@ == Map::<Seq<char>, AppConfig>::empty(),
    {
        SyncRules::new()
    }
}

} // verus!
