use vstd::prelude::*;

use roead::aamp::{Parameter, ParameterList, ParameterObject};
use roead::byml::Byml;

use crate::byml_node::clone_byml;

verus! {

/// `roead::byml::Byml`, a BYML document or node.
#[verifier::external_type_specification]
#[verifier::external_body]
pub struct ExByml(Byml);

/// `roead::aamp::Parameter`, a value of a parameter file.
#[verifier::external_type_specification]
#[verifier::external_body]
pub struct ExParameter(Parameter);

/// `roead::aamp::ParameterList`, a list of a parameter file.
#[verifier::external_type_specification]
#[verifier::external_body]
pub struct ExParameterList(ParameterList);

/// `roead::aamp::ParameterObject`, an object of a parameter file.
#[verifier::external_type_specification]
#[verifier::external_body]
pub struct ExParameterObject(ParameterObject);

/// `roead::Error`, the error of the resource codecs.
#[verifier::external_type_specification]
#[verifier::external_body]
pub struct ExRoeadError(roead::Error);

/// `anyhow::Error`, an error from elsewhere in the program.
#[verifier::external_type_specification]
#[verifier::external_body]
pub struct ExAnyhowError(anyhow::Error);

/// The piece of a resource that an error is about.
#[derive(Debug)]
pub enum ContextData {
    Parameter(Parameter),
    List(ParameterList),
    Object(ParameterObject),
    Byml(Byml),
}

/// Errors of reading and merging game resources.
#[derive(Debug)]
pub enum UKError {
    MissingAampKey(&'static str, Box<Option<ContextData>>),
    MissingAampKeyD(String),
    MissingBymlKey(&'static str),
    MissingBymlKeyD(String),
    WrongBymlType(String, &'static str),
    MissingSarcFile(&'static str),
    MissingSarcFileD(String),
    InvalidWeatherOrTime(String),
    MissingResource(String),
    Other(&'static str),
    OtherD(String),
    _Infallible(std::convert::Infallible),
    RoeadError(roead::Error),
    Any(anyhow::Error),
    InvalidByml(String, Byml),
    InvalidParameter(String, Parameter),
}

/// A copy of a parameter (`Parameter::clone`, derived: it copies every field).
#[verifier::external_body]
fn clone_parameter(p: &Parameter) -> (res: Parameter)
    ensures
        res == *p,
{
    p.clone()
}

/// A copy of a parameter list (`ParameterList::clone`, derived: it copies
/// every field).
#[verifier::external_body]
fn clone_parameter_list(p: &ParameterList) -> (res: ParameterList)
    ensures
        res == *p,
{
    p.clone()
}

/// A copy of a parameter object (`ParameterObject::clone`, derived: it
/// copies every field).
#[verifier::external_body]
fn clone_parameter_object(p: &ParameterObject) -> (res: ParameterObject)
    ensures
        res == *p,
{
    p.clone()
}

impl ContextData {
    /// A copy of this context.
    pub fn duplicate(&self) -> (res: ContextData)
        ensures
            res == *self,
    {
        match self {
            ContextData::Parameter(p) => ContextData::Parameter(clone_parameter(p)),
            ContextData::List(l) => ContextData::List(clone_parameter_list(l)),
            ContextData::Object(o) => ContextData::Object(clone_parameter_object(o)),
            ContextData::Byml(b) => ContextData::Byml(clone_byml(b)),
        }
    }
}

impl Clone for ContextData {
    fn clone(&self) -> (res: Self)
        ensures
            res == *self,
    {
        self.duplicate()
    }
}

/// The resource data that an error carries, if any.
pub open spec fn spec_context_data(e: UKError) -> Option<ContextData> {
    match e {
        UKError::MissingAampKey(_, data) => *data,
        UKError::InvalidByml(_, data) => Some(ContextData::Byml(data)),
        UKError::InvalidParameter(_, data) => Some(ContextData::Parameter(data)),
        _ => None,
    }
}

impl UKError {
    /// The resource data that this error carries: the context of a missing
    /// parameter key, or the offending BYML node or parameter; `None` for
    /// the other errors.
    pub fn context_data(&self) -> (res: Option<ContextData>)
        ensures
            res == spec_context_data(*self),
    {
        match self {
            UKError::MissingAampKey(_, data) => match &**data {
                Some(c) => Some(c.duplicate()),
                None => None,
            },
            UKError::InvalidByml(_, data) => Some(ContextData::Byml(clone_byml(data))),
            UKError::InvalidParameter(_, data) => Some(
                ContextData::Parameter(clone_parameter(data)),
            ),
            _ => None,
        }
    }
}

impl From<Parameter> for ContextData {
    fn from(param: Parameter) -> (res: Self) {
        ContextData::Parameter(param)
    }
}

impl vstd::std_specs::convert::FromSpecImpl<Parameter> for ContextData {
    open spec fn obeys_from_spec() -> bool {
        true
    }

    open spec fn from_spec(param: Parameter) -> Self {
        ContextData::Parameter(param)
    }
}

impl From<ParameterList> for ContextData {
    fn from(list: ParameterList) -> (res: Self) {
        ContextData::List(list)
    }
}

impl vstd::std_specs::convert::FromSpecImpl<ParameterList> for ContextData {
    open spec fn obeys_from_spec() -> bool {
        true
    }

    open spec fn from_spec(list: ParameterList) -> Self {
        ContextData::List(list)
    }
}

impl From<ParameterObject> for ContextData {
    fn from(obj: ParameterObject) -> (res: Self) {
        ContextData::Object(obj)
    }
}

impl vstd::std_specs::convert::FromSpecImpl<ParameterObject> for ContextData {
    open spec fn obeys_from_spec() -> bool {
        true
    }

    open spec fn from_spec(obj: ParameterObject) -> Self {
        ContextData::Object(obj)
    }
}

impl From<Byml> for ContextData {
    fn from(by: Byml) -> (res: Self) {
        ContextData::Byml(by)
    }
}

impl vstd::std_specs::convert::FromSpecImpl<Byml> for ContextData {
    open spec fn obeys_from_spec() -> bool {
        true
    }

    open spec fn from_spec(by: Byml) -> Self {
        ContextData::Byml(by)
    }
}

impl<'a> From<&'a Parameter> for ContextData {
    fn from(param: &'a Parameter) -> (res: Self) {
        ContextData::Parameter(clone_parameter(param))
    }
}

impl<'a> vstd::std_specs::convert::FromSpecImpl<&'a Parameter> for ContextData {
    open spec fn obeys_from_spec() -> bool {
        true
    }

    open spec fn from_spec(param: &'a Parameter) -> Self {
        ContextData::Parameter(*param)
    }
}

impl<'a> From<&'a ParameterList> for ContextData {
    fn from(list: &'a ParameterList) -> (res: Self) {
        ContextData::List(clone_parameter_list(list))
    }
}

impl<'a> vstd::std_specs::convert::FromSpecImpl<&'a ParameterList> for ContextData {
    open spec fn obeys_from_spec() -> bool {
        true
    }

    open spec fn from_spec(list: &'a ParameterList) -> Self {
        ContextData::List(*list)
    }
}

impl<'a> From<&'a ParameterObject> for ContextData {
    fn from(obj: &'a ParameterObject) -> (res: Self) {
        ContextData::Object(clone_parameter_object(obj))
    }
}

impl<'a> vstd::std_specs::convert::FromSpecImpl<&'a ParameterObject> for ContextData {
    open spec fn obeys_from_spec() -> bool {
        true
    }

    open spec fn from_spec(obj: &'a ParameterObject) -> Self {
        ContextData::Object(*obj)
    }
}

impl<'a> From<&'a Byml> for ContextData {
    fn from(by: &'a Byml) -> (res: Self) {
        ContextData::Byml(clone_byml(by))
    }
}

impl<'a> vstd::std_specs::convert::FromSpecImpl<&'a Byml> for ContextData {
    open spec fn obeys_from_spec() -> bool {
        true
    }

    open spec fn from_spec(by: &'a Byml) -> Self {
        ContextData::Byml(*by)
    }
}

impl From<roead::Error> for UKError {
    fn from(err: roead::Error) -> (res: Self) {
        UKError::RoeadError(err)
    }
}

impl vstd::std_specs::convert::FromSpecImpl<roead::Error> for UKError {
    open spec fn obeys_from_spec() -> bool {
        true
    }

    open spec fn from_spec(err: roead::Error) -> Self {
        UKError::RoeadError(err)
    }
}

impl From<anyhow::Error> for UKError {
    fn from(err: anyhow::Error) -> (res: Self) {
        UKError::Any(err)
    }
}

impl vstd::std_specs::convert::FromSpecImpl<anyhow::Error> for UKError {
    open spec fn obeys_from_spec() -> bool {
        true
    }

    open spec fn from_spec(err: anyhow::Error) -> Self {
        UKError::Any(err)
    }
}

impl From<std::convert::Infallible> for UKError {
    fn from(never: std::convert::Infallible) -> (res: Self) {
        UKError::_Infallible(never)
    }
}

impl vstd::std_specs::convert::FromSpecImpl<std::convert::Infallible> for UKError {
    open spec fn obeys_from_spec() -> bool {
        true
    }

    open spec fn from_spec(never: std::convert::Infallible) -> Self {
        UKError::_Infallible(never)
    }
}

/// Results of reading and merging game resources.
pub type Result<T> = std::result::Result<T, UKError>;

} // verus!
