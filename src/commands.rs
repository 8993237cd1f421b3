//! The start commands: each derives its task id from the request and
//! registers it before any work begins.
use vstd::prelude::*;
use crate::registry::{
    after_register, normalize_version, register_accepted, version_id, TaskError, TaskRegistry,
};
use crate::supervisor::{package_spec, package_spec_of};

verus! {

/// Starts the download of release `version`: its id is the version in its
/// `v` form, and it is refused while a task with that id is active. On
/// success the id is returned.
pub fn start_download<H>(registry: &mut TaskRegistry<H>, version: &str, handles: H) -> (r: Result<
    String,
    TaskError,
>)
    requires
        old(registry).wf(),
    ensures
        final(registry).wf(),
        final(registry)@ == after_register(old(registry)@, version_id(version@), handles),
        r is Ok <==> register_accepted(old(registry)@, version_id(version@)),
        r matches Ok(id) ==> id@ == version_id(version@),
        r matches Err(e) ==> (e matches TaskError::AlreadyRunning(s) && s@ == version_id(version@)),
{
    let id = normalize_version(version);
    match registry.register(id.as_str(), handles) {
        Ok(()) => Ok(id),
        Err(e) => Err(e),
    }
}

/// Starts the global install of package `name`, at `version` where one is
/// given: its id is the package spec, and it is refused while a task with
/// that id is active. On success the id is returned.
pub fn start_install<H>(
    registry: &mut TaskRegistry<H>,
    name: &str,
    version: Option<&str>,
    handles: H,
) -> (r: Result<String, TaskError>)
    requires
        old(registry).wf(),
    ensures
        ({
            let id = package_spec_of(
                name@,
                match version {
                    Some(v) => Some(v@),
                    None => None,
                },
            );
            &&& final(registry).wf()
            &&& final(registry)@ == after_register(old(registry)@, id, handles)
            &&& (r is Ok <==> register_accepted(old(registry)@, id))
            &&& (r matches Ok(s) ==> s@ == id)
            &&& (r matches Err(e) ==> (e matches TaskError::AlreadyRunning(s) && s@ == id))
        }),
{
    let id = package_spec(name, version);
    match registry.register(id.as_str(), handles) {
        Ok(()) => Ok(id),
        Err(e) => Err(e),
    }
}

} // verus!
