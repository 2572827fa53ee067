//! The filters that a template can apply to a value, as the parser builds
//! them.
use vstd::prelude::*;
use crate::types::{same_optional_argument, Argument, At};

verus! {

#[derive(Clone, Debug, PartialEq)]
pub enum FilterType {
    Add(AddFilter),
    AddSlashes(AddSlashesFilter),
    Capfirst(CapfirstFilter),
    Center(CenterFilter),
    Cut(CutFilter),
    Default(DefaultFilter),
    DefaultIfNone(DefaultIfNoneFilter),
    DivisibleBy(DivisibleByFilter),
    Date(DateFilter),
    Escape(EscapeFilter),
    Escapejs(EscapejsFilter),
    External(ExternalFilter),
    ForceEscape(ForceEscapeFilter),
    Join(JoinFilter),
    Last(LastFilter),
    Lower(LowerFilter),
    Length(LengthFilter),
    Safe(SafeFilter),
    Slugify(SlugifyFilter),
    Title(TitleFilter),
    Upper(UpperFilter),
    Wordcount(WordcountFilter),
    Wordwrap(WordwrapFilter),
    Yesno(YesnoFilter),
}

#[derive(Clone, Debug, PartialEq, Eq)]
pub struct AddSlashesFilter;

#[derive(Clone, Debug, PartialEq)]
pub struct AddFilter {
    pub argument: Argument,
}

impl AddFilter {
    pub fn new(argument: Argument) -> (r: Self)
        ensures
            r.argument == argument,
    {
        Self { argument }
    }
}

#[derive(Clone, Debug, PartialEq, Eq)]
pub struct CapfirstFilter;

#[derive(Clone, Debug, PartialEq)]
pub struct CenterFilter {
    pub argument: Argument,
}

impl CenterFilter {
    pub fn new(argument: Argument) -> (r: Self)
        ensures
            r.argument == argument,
    {
        Self { argument }
    }
}

#[derive(Clone, Debug, PartialEq)]
pub struct CutFilter {
    pub argument: Argument,
}

impl CutFilter {
    pub fn new(argument: Argument) -> (r: Self)
        ensures
            r.argument == argument,
    {
        Self { argument }
    }
}

#[derive(Debug, PartialEq)]
pub struct DefaultFilter {
    pub argument: Argument,
    pub at: At,
}

impl DefaultFilter {
    pub fn new(argument: Argument, at: At) -> (r: Self)
        ensures
            r.argument == argument,
            r.at == at,
    {
        Self { argument, at }
    }
}

#[derive(Clone, Debug, PartialEq)]
pub struct DefaultIfNoneFilter {
    pub argument: Argument,
}

impl DefaultIfNoneFilter {
    pub fn new(argument: Argument) -> (r: Self)
        ensures
            r.argument == argument,
    {
        Self { argument }
    }
}

#[derive(Debug, PartialEq)]
pub struct DateFilter {
    pub argument: Option<Argument>,
    pub at: At,
}

impl DateFilter {
    pub fn new(argument: Option<Argument>, at: At) -> (r: Self)
        ensures
            r.argument == argument,
            r.at == at,
    {
        Self { argument, at }
    }
}

#[derive(Clone, Debug, PartialEq, Eq)]
pub struct EscapeFilter;

#[derive(Clone, Debug, PartialEq, Eq)]
pub struct EscapejsFilter;

/// A filter registered from Python. `filter` identifies the registered
/// callable: two such filters are the same filter when they have the same
/// argument and the same callable.
#[derive(Clone, Debug, PartialEq)]
pub struct ExternalFilter {
    pub filter: usize,
    pub argument: Option<Argument>,
}

impl ExternalFilter {
    pub fn new(filter: usize, argument: Option<Argument>) -> (r: Self)
        ensures
            r.filter == filter,
            r.argument == argument,
    {
        Self { filter, argument }
    }
}

#[derive(Debug, PartialEq, Eq)]
pub struct LastFilter {
    pub at: (usize, usize),
}

impl LastFilter {
    pub fn new(at: (usize, usize)) -> (r: Self)
        ensures
            r.at == at,
    {
        Self { at }
    }
}

#[derive(Clone, Debug, PartialEq, Eq)]
pub struct ForceEscapeFilter;

#[derive(Clone, Debug, PartialEq)]
pub struct JoinFilter {
    pub argument: Argument,
}

impl JoinFilter {
    pub fn new(argument: Argument) -> (r: Self)
        ensures
            r.argument == argument,
    {
        Self { argument }
    }
}

#[derive(Clone, Debug, PartialEq, Eq)]
pub struct LowerFilter;

#[derive(Clone, Debug, PartialEq, Eq)]
pub struct LengthFilter;

#[derive(Clone, Debug, PartialEq, Eq)]
pub struct SafeFilter;

#[derive(Clone, Debug, PartialEq, Eq)]
pub struct SlugifyFilter;

#[derive(Clone, Debug, PartialEq, Eq)]
pub struct TitleFilter;

#[derive(Clone, Debug, PartialEq, Eq)]
pub struct UpperFilter;

#[derive(Clone, Debug, PartialEq, Eq)]
pub struct WordcountFilter;

#[derive(Clone, Debug, PartialEq)]
pub struct WordwrapFilter {
    pub argument: Argument,
}

impl WordwrapFilter {
    pub fn new(argument: Argument) -> (r: Self)
        ensures
            r.argument == argument,
    {
        Self { argument }
    }
}

#[derive(Debug, PartialEq)]
pub struct YesnoFilter {
    pub at: At,
    pub argument: Option<Argument>,
}

impl YesnoFilter {
    pub fn new(at: At, argument: Option<Argument>) -> (r: Self)
        ensures
            r.at == at,
            r.argument == argument,
    {
        Self { at, argument }
    }
}

#[derive(Debug, PartialEq)]
pub struct DivisibleByFilter {
    pub at: At,
    pub argument: Argument,
}

impl DivisibleByFilter {
    pub fn new(at: At, argument: Argument) -> (r: Self)
        ensures
            r.at == at,
            r.argument == argument,
    {
        Self { at, argument }
    }
}

impl Clone for DefaultFilter {
    fn clone(&self) -> (r: Self)
        ensures
            r.at == self.at,
            r.argument.same_as(&self.argument),
    {
        DefaultFilter { argument: self.argument.clone(), at: self.at }
    }
}

impl Clone for DateFilter {
    fn clone(&self) -> (r: Self)
        ensures
            r.at == self.at,
            same_optional_argument(r.argument, self.argument),
    {
        DateFilter {
            argument: match &self.argument {
                Some(a) => Some(a.clone()),
                None => None,
            },
            at: self.at,
        }
    }
}

impl Clone for LastFilter {
    fn clone(&self) -> (r: Self)
        ensures
            r.at == self.at,
    {
        LastFilter { at: self.at }
    }
}

impl Clone for YesnoFilter {
    fn clone(&self) -> (r: Self)
        ensures
            r.at == self.at,
            same_optional_argument(r.argument, self.argument),
    {
        YesnoFilter {
            at: self.at,
            argument: match &self.argument {
                Some(a) => Some(a.clone()),
                None => None,
            },
        }
    }
}

impl Clone for DivisibleByFilter {
    fn clone(&self) -> (r: Self)
        ensures
            r.at == self.at,
            r.argument.same_as(&self.argument),
    {
        DivisibleByFilter { at: self.at, argument: self.argument.clone() }
    }
}

} // verus!
