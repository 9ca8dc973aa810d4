//! A report: a profile with the options of its graph.

use crate::errors::RockError;
use crate::graph::builder::{graph_of, graph_wf, Graph, Options};
use crate::errors::ErrorKind;
use crate::keyed::{keys_of, lookup, KeyedList};
use crate::profile::units::{chosen_unit, encountered};
use crate::profile::Profile;
use crate::text::strictly_ascending;
use vstd::prelude::*;

verus! {

/// A report on a profile.
pub struct Report<'rep> {
    pub prof: &'rep Profile,
    pub total: i64,
    pub options: &'rep Options,
}

impl<'rep> Report<'rep> {
    /// The report on a profile, with a total of 0.
    pub fn new(p: &'rep Profile, opts: &'rep Options) -> (r: Self)
        ensures
            r.prof == p,
            r.options == opts,
            r.total == 0,
    {
        Report { prof: p, options: opts, total: 0 }
    }

    /// The unit of each key of a numeric label of the profile.
    pub fn identify_num_label_units(&self) -> (r: Result<KeyedList<String>, RockError>)
        ensures
            r matches Ok(units) && strictly_ascending(keys_of(units.model())) && forall|
                k: Seq<char>,
            |
                #[trigger] lookup(units.model(), k) == (if encountered(self.prof@.sample, k) {
                    Some(chosen_unit(self.prof@.sample, k))
                } else {
                    None
                }),
    {
        match self.prof.num_label_units() {
            Ok(maps) => Ok(maps.0),
            Err(e) => Err(e),
        }
    }

    /// The graph of the profile of the report.
    pub fn generate_report(&self) -> (r: Result<Graph, RockError>)
        ensures
            match graph_of(self.prof@, self.options@) {
                Some(g) => r matches Ok(x) && x@ == g && graph_wf(g),
                None => r matches Err(e) && e.kind_of() == ErrorKind::Unknown,
            },
    {
        Graph::new(self.prof, self.options)
    }
}

} // verus!
