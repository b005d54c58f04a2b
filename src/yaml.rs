//! Parsing YAML text into a node tree, recording where the text came from.
use vstd::prelude::*;

use crate::registry::{SourceRegistry, YamlSource};

verus! {

#[verifier::external_type_specification]
#[verifier::external_body]
pub struct ExNode(marked_yaml::Node);

#[verifier::external_type_specification]
#[verifier::external_body]
pub struct ExLoadError(marked_yaml::LoadError);

/// Whether marked_yaml accepts `text` as a document tagged with source handle
/// `source`, refusing duplicate keys when `strict` holds.
pub uninterp spec fn yaml_accepts(source: nat, text: Seq<char>, strict: bool) -> bool;

/// Relies on marked_yaml::parse_yaml_with_options, with its default options
/// but for `error_on_duplicate_keys`: whether it succeeds depends on the
/// handle, the text and that option alone.
#[verifier::external_body]
fn parse_marked(source: usize, text: &str, strict: bool) -> (r: Result<
    marked_yaml::Node,
    marked_yaml::LoadError,
>)
    ensures
        r is Ok == yaml_accepts(source as nat, text@, strict),
{
    let options = marked_yaml::LoaderOptions::default().error_on_duplicate_keys(strict);
    marked_yaml::parse_yaml_with_options(source, text, options)
}

/// Parses `content` as YAML, without deserialising it; a key repeated in one
/// mapping is an error, so that no authored value is silently lost.
///
/// The source is registered whether or not the parse succeeds; the parsed
/// tree's spans carry the handle it was given, which is the registry's
/// length before the call.
pub fn node_from_source(
    registry: &mut SourceRegistry,
    source: YamlSource,
    content: &str,
) -> (r: Result<marked_yaml::Node, marked_yaml::LoadError>)
    ensures
        final(registry)@ == old(registry)@.push(source@),
        r is Ok == yaml_accepts(old(registry)@.len(), content@, true),
{
    let handle = registry.register(source);
    parse_marked(handle, content, true)
}

} // verus!
