use vstd::prelude::*;
use vstd::string::{StrSliceExecFns, StringExecFns};

use crate::schema::{ResolutionError, SchemaNode, SchemaTable};
use crate::settings::{Formatting, SpecBodySettings};
use crate::value::{ExampleValue, ValueModel};
use crate::walker::{convert_spec, parse_json_from_schema};

verus! {

/// One content entry of a request body: a media type and, where declared,
/// a reference to its schema.
#[derive(PartialEq, Eq, Debug)]
pub struct MediaContent {
    pub media_type: String,
    pub schema: Option<usize>,
}

/// A request body with its content entries in declaration order.
#[derive(PartialEq, Eq, Debug)]
pub struct RequestBody {
    pub content: Vec<MediaContent>,
}

/// A JSON request body: leading space, the value, and the line terminator.
#[derive(PartialEq, Eq, Debug)]
pub struct Body {
    pub space0: String,
    pub value: ExampleValue,
    pub line_terminator0: String,
}

/// The lowercase form of a string, as `str::to_lowercase` gives it.
pub uninterp spec fn lower_of(s: Seq<char>) -> Seq<char>;

/// Relies on `str::to_lowercase`: its result depends on the characters alone.
#[verifier::external_body]
fn lowercase(s: &str) -> (r: String)
    ensures
        r@ == lower_of(s@),
{
    s.to_lowercase()
}

/// `s` holds "json" somewhere.
pub open spec fn has_json(s: Seq<char>) -> bool {
    exists|i: int|
        0 <= i && i + 4 <= s.len() && s[i] == 'j' && s[i + 1] == 's' && s[i + 2] == 'o' && #[trigger] s[i
            + 3] == 'n'
}

/// Tells whether an already lowercased media type names a JSON-like content.
pub fn is_json_media_type(lowered: &str) -> (r: bool)
    ensures
        r == has_json(lowered@),
{
    let n = lowered.unicode_len();
    if n < 4 {
        return false;
    }
    let mut i: usize = 0;
    while i <= n - 4
        invariant
            n == lowered@.len(),
            4 <= n,
            0 <= i <= n - 3,
            forall|m: int|
                0 <= m < i ==> !(lowered@[m] == 'j' && lowered@[m + 1] == 's' && lowered@[m + 2]
                    == 'o' && #[trigger] lowered@[m + 3] == 'n'),
        decreases n - i,
    {
        if lowered.get_char(i) == 'j' && lowered.get_char(i + 1) == 's' && lowered.get_char(i + 2)
            == 'o' && lowered.get_char(i + 3) == 'n' {
            return true;
        }
        i += 1;
    }
    false
}

/// What the first JSON-like entry from `i` on gives, read against the nodes `t`.
/// Only that entry's schema is resolved; every other content type is skipped
/// unread, and so is a JSON-like entry that declares no schema.
pub open spec fn body_from(t: Seq<SchemaNode>, s: Seq<MediaContent>, i: int, f: Formatting) -> Result<
    Option<ValueModel>,
    ResolutionError,
>
    decreases s.len() - i,
{
    if i < 0 || i >= s.len() {
        Ok(None)
    } else if has_json(lower_of(s[i].media_type@)) {
        match s[i].schema {
            None => body_from(t, s, i + 1, f),
            Some(j) => if j >= t.len() {
                Err(ResolutionError { reference: j })
            } else {
                convert_spec(t, t[j as int], t.len(), 1, f)
            },
        }
    } else {
        body_from(t, s, i + 1, f)
    }
}

pub open spec fn body_view(r: Result<Option<Body>, ResolutionError>) -> Result<
    Option<ValueModel>,
    ResolutionError,
> {
    match r {
        Ok(Some(b)) => Ok(Some(b.value@)),
        Ok(None) => Ok(None),
        Err(e) => Err(e),
    }
}

/// Builds the request body from the first content entry whose media type
/// contains "json", with members laid out from depth one.
pub fn from_spec_body(spec_body: RequestBody, spec: &SchemaTable, settings: SpecBodySettings) -> (r:
    Result<Option<Body>, ResolutionError>)
    requires
        spec.wf(),
        spec.len() < usize::MAX,
    ensures
        body_view(r) == body_from(spec.nodes@, spec_body.content@, 0, settings.formatting),
        r matches Ok(Some(b)) ==> b.space0@ == ""@ && b.line_terminator0@ == "\n"@,
{
    let ghost t = spec.nodes@;
    let ghost s = spec_body.content@;
    let mut i: usize = 0;
    while i < spec_body.content.len()
        invariant
            0 <= i <= s.len(),
            s == spec_body.content@,
            t == spec.nodes@,
            spec.wf(),
            spec.len() < usize::MAX,
            body_from(t, s, 0, settings.formatting) == body_from(t, s, i as int, settings.formatting),
        decreases s.len() - i,
    {
        let content = &spec_body.content[i];
        let lowered = lowercase(content.media_type.as_str());
        if is_json_media_type(lowered.as_str()) {
            if let Some(j) = content.schema {
                let schema = match spec.resolve(j) {
                    Err(e) => {
                        return Err(e);
                    },
                    Ok(node) => node,
                };
                return match parse_json_from_schema(schema, spec, 1, &settings) {
                    Err(e) => Err(e),
                    Ok(None) => Ok(None),
                    Ok(Some(value)) => Ok(
                        Some(
                            Body {
                                space0: <String as StringExecFns>::from_str(""),
                                value,
                                line_terminator0: <String as StringExecFns>::from_str("\n"),
                            },
                        ),
                    ),
                };
            }
        }
        i += 1;
    }
    Ok(None)
}

} // verus!
