use vstd::prelude::*;
use vstd::string::StringExecFns;

verus! {

/// The job titles that the salary comparison distinguishes.
#[derive(Debug, Clone, Copy, PartialEq, Eq, Structural)]
pub enum JobTitle {
    DataAnalyst,
    DataScientist,
    DataEngineer,
    Other,
}

/// The title that a survey row's job-title field names; any text other than
/// the three known titles is `Other`.
pub open spec fn title_of(name: Seq<char>) -> JobTitle {
    if name == "Data Analyst"@ {
        JobTitle::DataAnalyst
    } else if name == "Data Scientist"@ {
        JobTitle::DataScientist
    } else if name == "Data Engineer"@ {
        JobTitle::DataEngineer
    } else {
        JobTitle::Other
    }
}

/// The category label under which a title is counted in a contingency table.
pub open spec fn label_of(t: JobTitle) -> Seq<char> {
    match t {
        JobTitle::DataAnalyst => "DataAnalyst"@,
        JobTitle::DataScientist => "DataScientist"@,
        JobTitle::DataEngineer => "DataEngineer"@,
        JobTitle::Other => "Other"@,
    }
}

/// The values of the records that carry title `t`, in record order.
pub open spec fn values_with<T>(records: Seq<(JobTitle, T)>, t: JobTitle) -> Seq<T>
    decreases records.len(),
{
    if records.len() == 0 {
        Seq::empty()
    } else {
        let rest = values_with(records.drop_last(), t);
        if records.last().0 == t {
            rest.push(records.last().1)
        } else {
            rest
        }
    }
}

impl JobTitle {
    /// Reads a job-title field.
    pub fn from_name(name: &String) -> (r: JobTitle)
        ensures
            r == title_of(name@),
    {
        if *name == <String as StringExecFns>::from_str("Data Analyst") {
            JobTitle::DataAnalyst
        } else if *name == <String as StringExecFns>::from_str("Data Scientist") {
            JobTitle::DataScientist
        } else if *name == <String as StringExecFns>::from_str("Data Engineer") {
            JobTitle::DataEngineer
        } else {
            JobTitle::Other
        }
    }

    /// The category label of this title.
    pub fn label(&self) -> (r: String)
        ensures
            r@ == label_of(*self),
    {
        match self {
            JobTitle::DataAnalyst => <String as StringExecFns>::from_str("DataAnalyst"),
            JobTitle::DataScientist => <String as StringExecFns>::from_str("DataScientist"),
            JobTitle::DataEngineer => <String as StringExecFns>::from_str("DataEngineer"),
            JobTitle::Other => <String as StringExecFns>::from_str("Other"),
        }
    }
}

/// Splits (title, value) records into the values of data scientists, of
/// data analysts and of data engineers, each in record order; records of
/// other titles are left out.
pub fn group_by_title<T: Copy>(records: &Vec<(JobTitle, T)>) -> (r: (Vec<T>, Vec<T>, Vec<T>))
    ensures
        r.0@ == values_with(records@, JobTitle::DataScientist),
        r.1@ == values_with(records@, JobTitle::DataAnalyst),
        r.2@ == values_with(records@, JobTitle::DataEngineer),
{
    let mut scientists: Vec<T> = Vec::new();
    let mut analysts: Vec<T> = Vec::new();
    let mut engineers: Vec<T> = Vec::new();
    let mut i: usize = 0;
    while i < records.len()
        invariant
            i <= records@.len(),
            scientists@ == values_with(records@.take(i as int), JobTitle::DataScientist),
            analysts@ == values_with(records@.take(i as int), JobTitle::DataAnalyst),
            engineers@ == values_with(records@.take(i as int), JobTitle::DataEngineer),
        decreases records@.len() - i,
    {
        proof {
            assert(records@.take(i as int + 1).drop_last() =~= records@.take(i as int));
        }
        let title = records[i].0;
        let value = records[i].1;
        match title {
            JobTitle::DataScientist => scientists.push(value),
            JobTitle::DataAnalyst => analysts.push(value),
            JobTitle::DataEngineer => engineers.push(value),
            JobTitle::Other => {},
        }
        i = i + 1;
    }
    assert(records@.take(records@.len() as int) =~= records@);
    (scientists, analysts, engineers)
}

} // verus!
