//! The scanner's report: a stream of records, of which the diagnostics that
//! carry an advisory are the findings.

use crate::deny::output::Object;
use crate::{advisory_views, Advisory, AdvisoryView};
use vstd::prelude::*;
use vstd::std_specs::iter::IteratorSpec;

pub mod output;

verus! {

/// The findings among `records`, in order: one advisory for each diagnostic
/// that carries an advisory payload. Summaries, diagnostics without a payload
/// and records that could not be read contribute nothing.
pub open spec fn findings<E>(records: Seq<Result<Object, E>>) -> Seq<AdvisoryView>
    decreases records.len(),
{
    if records.len() == 0 {
        Seq::empty()
    } else {
        let before = findings(records.drop_last());
        match records.last() {
            Ok(Object::Diagnostic(d)) => if d.advisory is Some {
                before.push(Advisory::normalized(d))
            } else {
                before
            },
            _ => before,
        }
    }
}

/// Lists the advisories of a report. `records` are the report's records in
/// order, each as it was read or the error of reading it. The first error
/// fails the whole report; a record that is no finding is passed over.
pub fn advisories<E>(records: Vec<Result<Object, E>>) -> (found: Result<Vec<Advisory>, E>)
    ensures
        match found {
            Ok(list) => {
                &&& forall|i: int| 0 <= i < records@.len() ==> records@[i] is Ok
                &&& advisory_views(list@) == findings(records@)
            },
            Err(e) => exists|i: int|
                {
                    &&& 0 <= i < records@.len()
                    &&& records@[i] == Err::<Object, E>(e)
                    &&& forall|j: int| 0 <= j < i ==> records@[j] is Ok
                },
        },
{
    let ghost all = records@;
    let mut list: Vec<Advisory> = Vec::new();
    for record in it: records
        invariant
            it.seq() == all,
            forall|j: int| 0 <= j < it.index() ==> all[j] is Ok,
            advisory_views(list@) == findings(all.take(it.index() as int)),
    {
        let ghost at = it.index();
        proof {
            let upto = all.take(at + 1);
            assert(upto.drop_last() =~= all.take(at));
            assert(upto.last() == record);
        }
        match record {
            Err(e) => {
                return Err(e);
            },
            Ok(Object::Diagnostic(d)) => {
                match Advisory::try_from(d) {
                    Ok(advisory) => {
                        proof {
                            assert(advisory_views(list@.push(advisory)) =~= advisory_views(
                                list@,
                            ).push(advisory@));
                        }
                        list.push(advisory);
                    },
                    Err(_) => {},
                }
            },
            Ok(Object::Summary(_)) => {},
        }
    }
    proof {
        assert(all.take(all.len() as int) =~= all);
    }
    Ok(list)
}

} // verus!
