//! The controller's external-interface description: the OpenAPI document of
//! the allocation operation, and the entry point that emits it to stdout.

use vstd::prelude::*;

verus! {

/// Relies on std::io::stdout: writes the line out. Nothing is promised of
/// the write's effect.
#[verifier::external_body]
fn print_line(s: &str) {
    let mut out = std::io::stdout();
    let _ = <std::io::Stdout as std::io::Write>::write_all(&mut out, s.as_bytes());
    let _ = <std::io::Stdout as std::io::Write>::write_all(&mut out, b"\n");
}

/// The OpenAPI description of the external allocation interface: one
/// operation that asks for a volume's regions to be allocated.
pub fn controller_external_api_document() -> (r: String)
    ensures
        r@
            == "{\"openapi\":\"3.0.3\",\"info\":{\"title\":\"Region Allocator External API\",\"version\":\"0.0.1\"},\"paths\":{\"/volumes/{volume_id}/regions\":{\"post\":{\"operationId\":\"region_allocate\",\"responses\":{\"200\":{\"description\":\"regions allocated for the volume\"}}}}}}"@,
{
    String::from_str(
        "{\"openapi\":\"3.0.3\",\"info\":{\"title\":\"Region Allocator External API\",\"version\":\"0.0.1\"},\"paths\":{\"/volumes/{volume_id}/regions\":{\"post\":{\"operationId\":\"region_allocate\",\"responses\":{\"200\":{\"description\":\"regions allocated for the volume\"}}}}}}",
    )
}

/// Run the OpenAPI generator for the external API, which emits the OpenAPI
/// spec to stdout.
pub fn controller_run_openapi_external() {
    let doc = controller_external_api_document();
    print_line(doc.as_str());
}

} // verus!
