//! The OneProvider driver: its settings, how it names servers, and the
//! forms it sends.

use vstd::prelude::*;
use vstd::string::*;

use crate::provider::Provider;
use crate::text::{decimal, decimal_text};

verus! {

/// Settings of the OneProvider driver.
#[derive(Clone, Debug)]
pub struct OneCloudConfig {
    pub api_key: String,
    pub client_key: String,
    pub location_id: usize,
    pub instance_size: String,
    pub template: usize,
    pub ssh_key: String,
}

/// The prefix of the names of OneProvider servers.
pub open spec fn oneprovider_prefix() -> Seq<char> {
    Seq::empty()
}

/// The OneProvider driver.
pub struct OneCloudProvider {
    cfg: OneCloudConfig,
}

impl OneCloudProvider {
    /// The settings the driver was made with.
    pub closed spec fn config(self) -> OneCloudConfig {
        self.cfg
    }

    /// Makes a driver from its settings.
    pub fn new(cfg: OneCloudConfig) -> (out: Self)
        ensures
            out.config() == cfg,
    {
        Self { cfg }
    }

    /// The settings the driver was made with.
    pub fn cfg(&self) -> (out: &OneCloudConfig)
        ensures
            *out == self.config(),
    {
        &self.cfg
    }
}

impl Provider for OneCloudProvider {
    open spec fn spec_prefix(&self) -> Seq<char> {
        oneprovider_prefix()
    }

    open spec fn spec_rotates_ips(&self) -> bool {
        false
    }

    fn prefix(&self) -> (out: String) {
        proof {
            reveal_strlit("");
        }
        let out = String::from_str("");
        assert(out@ =~= oneprovider_prefix());
        out
    }

    fn rotates_ips(&self) -> (out: bool) {
        false
    }
}

/// `serde_urlencoded::ser::Error`, why a form could not be written.  Opaque
/// here.
#[verifier::external_type_specification]
#[verifier::external_body]
pub struct ExFormError(serde_urlencoded::ser::Error);

/// One field of a form.
#[derive(Debug)]
pub struct FormField {
    pub name: String,
    pub value: String,
}

/// The names of the fields of a form.
pub open spec fn names_of(fields: Seq<FormField>) -> Seq<Seq<char>> {
    fields.map_values(|f: FormField| f.name@)
}

/// The values of the fields of a form.
pub open spec fn values_of(fields: Seq<FormField>) -> Seq<Seq<char>> {
    fields.map_values(|f: FormField| f.value@)
}

/// The `application/x-www-form-urlencoded` text of a form, given the names
/// and the values of its fields in order; `None` where the form cannot be
/// written.
pub uninterp spec fn urlencoded_of(names: Seq<Seq<char>>, values: Seq<Seq<char>>) -> Option<
    Seq<char>,
>;

/// Writes a form with `serde_urlencoded::to_string`, handed the fields as a
/// list of pairs of texts.  What comes back depends on the fields alone.
#[verifier::external_body]
pub(crate) fn urlencode(fields: &Vec<FormField>) -> (out: Result<
    String,
    serde_urlencoded::ser::Error,
>)
    ensures
        out matches Ok(text) ==> urlencoded_of(names_of(fields@), values_of(fields@)) == Some(text@),
        out is Err ==> urlencoded_of(names_of(fields@), values_of(fields@)) is None,
{
    let pairs: Vec<(&str, &str)> =
        fields.iter().map(|f| (f.name.as_str(), f.value.as_str())).collect();
    serde_urlencoded::to_string(pairs)
}

/// What a text, if any, says.
pub open spec fn opt_text(text: Option<String>) -> Option<Seq<char>> {
    match text {
        Some(t) => Some(t@),
        None => None,
    }
}

/// A form as text, from what the encoder made of it.
pub fn form_text(encoded: Result<String, serde_urlencoded::ser::Error>) -> (out: Option<String>)
    ensures
        out is Some <==> encoded is Ok,
        out matches Some(text) ==> encoded matches Ok(t) && t == text,
{
    match encoded {
        Ok(text) => Some(text),
        Err(_) => None,
    }
}

fn field(name: &str, value: String) -> (out: FormField)
    ensures
        out.name@ == name@,
        out.value@ == value@,
{
    FormField { name: String::from_str(name), value }
}

/// The fields of the request that creates the server of a bridge.
pub open spec fn create_fields_of(cfg: OneCloudConfig, id: Seq<char>) -> (Seq<Seq<char>>, Seq<
    Seq<char>,
>) {
    (
        seq!["hostname"@, "location_id"@, "instance_size"@, "template"@],
        seq![
            id,
            decimal(cfg.location_id as nat),
            cfg.instance_size@,
            decimal(cfg.template as nat),
        ],
    )
}

/// The fields of the request that destroys a server.
pub open spec fn destroy_fields_of(vm_id: Seq<char>) -> (Seq<Seq<char>>, Seq<Seq<char>>) {
    (seq!["vm_id"@, "confirm_close"@], seq![vm_id, "true"@])
}

/// The body of the request that creates the server of a bridge: the name
/// of the server, where to put it, its size and what to install on it.
pub fn create_form(cfg: &OneCloudConfig, phalanx_id: &str) -> (out: Option<String>)
    ensures
        opt_text(out) == urlencoded_of(
            create_fields_of(*cfg, phalanx_id@).0,
            create_fields_of(*cfg, phalanx_id@).1,
        ),
{
    let mut fields: Vec<FormField> = Vec::new();
    fields.push(field("hostname", String::from_str(phalanx_id)));
    fields.push(field("location_id", decimal_text(cfg.location_id as u64)));
    fields.push(field("instance_size", cfg.instance_size.clone()));
    fields.push(field("template", decimal_text(cfg.template as u64)));
    assert(names_of(fields@) =~= create_fields_of(*cfg, phalanx_id@).0);
    assert(values_of(fields@) =~= create_fields_of(*cfg, phalanx_id@).1);
    form_text(urlencode(&fields))
}

/// The body of the request that destroys a server for good.
pub fn destroy_form(vm_id: &str) -> (out: Option<String>)
    ensures
        opt_text(out) == urlencoded_of(destroy_fields_of(vm_id@).0, destroy_fields_of(vm_id@).1),
{
    let mut fields: Vec<FormField> = Vec::new();
    fields.push(field("vm_id", String::from_str(vm_id)));
    fields.push(field("confirm_close", String::from_str("true")));
    assert(names_of(fields@) =~= destroy_fields_of(vm_id@).0);
    assert(values_of(fields@) =~= destroy_fields_of(vm_id@).1);
    form_text(urlencode(&fields))
}

} // verus!
