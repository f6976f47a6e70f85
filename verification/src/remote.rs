//! The named remotes of a configuration, as the submission reads them.

use vstd::prelude::*;
use crate::error::{ConfigFault, Error};
use crate::seqs::{lemma_filter_none, lemma_filter_step};
use crate::text::{append_text, same_text};

verus! {

/// The name of the configuration file in the user's home directory.
pub const CONFIG: &'static str = ".hwclirc";

/// A named upload destination.
#[derive(Debug, PartialEq, Eq)]
pub struct Remote {
    /// The name by which the remote is chosen.
    pub name: String,
    /// Where uploads to this remote go.
    pub url: String,
    /// Whether this remote is taken where none is named.
    pub default: bool,
}

/// A remote as a plain value.
pub struct RemoteView {
    pub name: Seq<char>,
    pub url: Seq<char>,
    pub default: bool,
}

impl View for Remote {
    type V = RemoteView;

    open spec fn view(&self) -> RemoteView {
        RemoteView { name: self.name@, url: self.url@, default: self.default }
    }
}

/// The remotes that a user has configured. A configuration that never
/// mentioned remotes differs from one with an empty list only in how it is
/// written down.
#[derive(Clone, Debug, PartialEq, Eq)]
pub struct Config {
    pub remotes: Option<Vec<Remote>>,
}

/// What `set` did to the configuration.
#[derive(Clone, Copy, Debug, PartialEq, Eq, Structural)]
pub enum Change {
    /// The remote existed and has a new location.
    Updated,
    /// The remote is new.
    Added,
}

/// The remotes as plain values.
pub open spec fn remote_views(remotes: Seq<Remote>) -> Seq<RemoteView> {
    remotes.map_values(|r: Remote| r@)
}

impl Config {
    /// The remotes of the configuration, in order; none where it never
    /// mentioned any.
    pub open spec fn entries(&self) -> Seq<RemoteView> {
        match self.remotes {
            Some(remotes) => remote_views(remotes@),
            None => Seq::empty(),
        }
    }
}

/// The test for the remotes called `name`.
pub open spec fn named(name: Seq<char>) -> spec_fn(RemoteView) -> bool {
    |r: RemoteView| r.name == name
}

/// The test for the remotes marked as default.
pub open spec fn marked_default() -> spec_fn(RemoteView) -> bool {
    |r: RemoteView| r.default
}

/// The test for the remotes called `name`, or for those marked as default
/// where no name is given.
pub open spec fn chosen(name: Option<Seq<char>>) -> spec_fn(RemoteView) -> bool {
    match name {
        Some(n) => named(n),
        None => marked_default(),
    }
}

/// The remotes with every remote called `name` moved to `url`.
pub open spec fn moved(remotes: Seq<RemoteView>, name: Seq<char>, url: Seq<char>) -> Seq<
    RemoteView,
> {
    remotes.map_values(
        |r: RemoteView|
            if r.name == name {
                RemoteView { name: r.name, url: url, default: r.default }
            } else {
                r
            },
    )
}

/// The remote that `set` adds for a new name; it is not the default.
pub open spec fn fresh(name: Seq<char>, url: Seq<char>) -> RemoteView {
    RemoteView { name: name, url: url, default: false }
}

/// What a lookup of `name` among `remotes` answers.
pub open spec fn lookup_of(remotes: Seq<RemoteView>, name: Seq<char>) -> Result<Seq<char>, Error> {
    let found = remotes.filter(named(name));
    if found.len() == 1 {
        Ok(found[0].url)
    } else if found.len() == 0 {
        Err(Error::Config(ConfigFault::Undefined))
    } else {
        Err(Error::Config(ConfigFault::Duplicate))
    }
}

/// The test that `tally` applies.
spec fn wanted(name: Option<&str>) -> spec_fn(RemoteView) -> bool {
    chosen(
        match name {
            Some(n) => Some(n@),
            None => None,
        },
    )
}

/// Counts the remotes that `name` chooses and finds the first of them.
fn tally(remotes: &Vec<Remote>, name: Option<&str>) -> (found: (usize, usize))
    ensures
        found.0 == remote_views(remotes@).filter(wanted(name)).len(),
        found.0 > 0 ==> found.1 < remotes.len() && remote_views(remotes@).filter(wanted(name))[0]
            == remotes[found.1 as int]@,
        found.0 == 1 ==> forall|k: int|
            0 <= k < remotes.len() && k != found.1 ==> !wanted(name)(#[trigger] remotes[k]@),
{
    let ghost all = remote_views(remotes@);
    let ghost test = wanted(name);
    let mut count: usize = 0;
    let mut first: usize = 0;
    let mut i: usize = 0;
    proof {
        lemma_filter_none(all.take(0), test);
    }
    while i < remotes.len()
        invariant
            i <= remotes.len(),
            all == remote_views(remotes@),
            test == wanted(name),
            count == all.take(i as int).filter(test).len(),
            count <= i,
            count > 0 ==> first < i && all.take(i as int).filter(test)[0] == all[first as int],
            count == 0 ==> forall|k: int| 0 <= k < i ==> !test(#[trigger] all[k]),
            count == 1 ==> forall|k: int| 0 <= k < i && k != first ==> !test(#[trigger] all[k]),
        decreases remotes.len() - i,
    {
        proof {
            lemma_filter_step(all, test, i as int);
            assert(all[i as int] == remotes[i as int]@);
        }
        let hit = match name {
            Some(n) => same_text(remotes[i].name.as_str(), n),
            None => remotes[i].default,
        };
        if hit {
            if count == 0 {
                first = i;
            }
            count += 1;
        }
        i += 1;
    }
    assert(all.take(remotes.len() as int) =~= all);
    proof {
        if count == 1 {
            assert forall|k: int| 0 <= k < remotes.len() && k != first implies !test(
                #[trigger] remotes[k]@,
            ) by {
                assert(all[k] == remotes[k]@);
            }
        }
    }
    (count, first)
}

impl Remote {
    /// The default remote: the one remote that is marked as default. Where
    /// none is marked, or more than one, there is no default.
    pub fn default(config: &Config) -> (remote: Option<Remote>)
        ensures
            remote is Some <==> config.entries().filter(marked_default()).len() == 1,
            remote matches Some(r) ==> r@ == config.entries().filter(marked_default())[0],
    {
        match &config.remotes {
            Some(remotes) => {
                let (count, first) = tally(remotes, None);
                if count == 1 {
                    Some(remotes[first].clone())
                } else {
                    None
                }
            },
            None => {
                proof {
                    lemma_filter_none(config.entries(), marked_default());
                }
                None
            },
        }
    }

    /// The remote as a line of text: its name, ` = `, and its location.
    pub fn label(&self) -> (line: String)
        ensures
            line@ == self.name@ + " = "@ + self.url@,
    {
        let head = append_text(self.name.as_str(), " = ");
        append_text(head.as_str(), self.url.as_str())
    }
}

impl Config {
    /// The location of the remote called `name`. A name that no remote
    /// carries is undefined; a name that several remotes carry is a
    /// duplicate, and none of them is picked.
    pub fn lookup(&self, name: &str) -> (url: Result<String, Error>)
        ensures
            match url {
                Ok(u) => lookup_of(self.entries(), name@) == Ok::<Seq<char>, Error>(u@),
                Err(e) => lookup_of(self.entries(), name@) == Err::<Seq<char>, Error>(e),
            },
    {
        match &self.remotes {
            Some(remotes) => {
                let (count, first) = tally(remotes, Some(name));
                if count == 1 {
                    Ok(remotes[first].url.clone())
                } else if count == 0 {
                    Err(Error::Config(ConfigFault::Undefined))
                } else {
                    Err(Error::Config(ConfigFault::Duplicate))
                }
            },
            None => {
                proof {
                    lemma_filter_none(self.entries(), named(name@));
                }
                Err(Error::Config(ConfigFault::Undefined))
            },
        }
    }

    /// Points the remote called `name` to `url`. One remote of that name is
    /// moved; where there is none, a new remote is added at the end, not
    /// marked as default; where there are several, nothing changes and the
    /// name is reported as a duplicate.
    pub fn set(&mut self, name: &str, url: &str) -> (done: Result<Change, Error>)
        ensures
            match done {
                Ok(Change::Updated) => {
                    &&& old(self).entries().filter(named(name@)).len() == 1
                    &&& final(self).remotes is Some
                    &&& final(self).entries() == moved(old(self).entries(), name@, url@)
                },
                Ok(Change::Added) => {
                    &&& old(self).entries().filter(named(name@)).len() == 0
                    &&& final(self).remotes is Some
                    &&& final(self).entries() == old(self).entries().push(fresh(name@, url@))
                },
                Err(e) => {
                    &&& old(self).entries().filter(named(name@)).len() > 1
                    &&& e == Error::Config(ConfigFault::Duplicate)
                    &&& *final(self) == *old(self)
                },
            },
    {
        let ghost before = self.entries();
        let taken = self.remotes.take();
        match taken {
            Some(mut remotes) => {
                let (count, first) = tally(&remotes, Some(name));
                if count == 1 {
                    let ghost was = remotes@;
                    let found = remotes.remove(first);
                    let changed = Remote {
                        name: found.name,
                        url: url.to_owned(),
                        default: found.default,
                    };
                    remotes.insert(first, changed);
                    proof {
                        assert forall|k: int| 0 <= k < was.len() implies #[trigger] remote_views(
                            remotes@,
                        )[k] == moved(before, name@, url@)[k] by {
                            if k != first {
                                assert(remotes@[k] == was[k]);
                                assert(!wanted(Some(name))(was[k]@));
                            }
                        }
                        assert(remote_views(remotes@) =~= moved(before, name@, url@));
                    }
                    self.remotes = Some(remotes);
                    Ok(Change::Updated)
                } else if count == 0 {
                    let ghost was = remotes@;
                    remotes.push(Remote { name: name.to_owned(), url: url.to_owned(), default: false });
                    assert(remote_views(remotes@) =~= remote_views(was).push(fresh(name@, url@)));
                    self.remotes = Some(remotes);
                    Ok(Change::Added)
                } else {
                    self.remotes = Some(remotes);
                    Err(Error::Config(ConfigFault::Duplicate))
                }
            },
            None => {
                proof {
                    lemma_filter_none(before, named(name@));
                }
                let mut remotes: Vec<Remote> = Vec::new();
                remotes.push(Remote { name: name.to_owned(), url: url.to_owned(), default: false });
                assert(remote_views(remotes@) =~= before.push(fresh(name@, url@)));
                self.remotes = Some(remotes);
                Ok(Change::Added)
            },
        }
    }
}

impl Clone for Remote {
    fn clone(&self) -> (copy: Remote)
        ensures
            copy@ == self@,
    {
        Remote { name: self.name.clone(), url: self.url.clone(), default: self.default }
    }
}

} // verus!
