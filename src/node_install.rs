//! Where a Node.js release is fetched from, and the events of a release
//! install as a whole.
use vstd::prelude::*;
use crate::event::ProgressEvent;

verus! {

/// `s` without the slashes at its end.
pub open spec fn trim_trailing_slashes(s: Seq<char>) -> Seq<char>
    decreases s.len(),
{
    if s.len() > 0 && s.last() == '/' {
        trim_trailing_slashes(s.drop_last())
    } else {
        s
    }
}

/// Removes the slashes at the end of `s`.
pub fn trim_slashes(s: &str) -> (r: String)
    ensures
        r@ == trim_trailing_slashes(s@),
{
    let mut end: usize = s.unicode_len();
    assert(s@.subrange(0, end as int) =~= s@);
    while end > 0 && s.get_char(end - 1) == '/'
        invariant
            end <= s@.len(),
            trim_trailing_slashes(s@.subrange(0, end as int)) == trim_trailing_slashes(s@),
        decreases end,
    {
        assert(s@.subrange(0, end as int).drop_last() =~= s@.subrange(0, end - 1));
        end = end - 1;
    }
    assert(trim_trailing_slashes(s@.subrange(0, end as int)) == s@.subrange(0, end as int));
    String::from_str(s.substring_char(0, end))
}

/// The architecture token of a release file: `x64` for the setting `64`,
/// else `x86`.
pub open spec fn arch_token_of(arch: Seq<char>) -> Seq<char> {
    if arch == "64"@ {
        "x64"@
    } else {
        "x86"@
    }
}

/// The architecture token of a release file for the setting `arch`.
pub fn arch_token(arch: &str) -> (r: &'static str)
    ensures
        r@ == arch_token_of(arch@),
{
    if String::from_str(arch) == String::from_str("64") {
        "x64"
    } else {
        "x86"
    }
}

/// The address of the zip of release `version` for `arch` under `mirror`.
pub open spec fn download_url_of(mirror: Seq<char>, version: Seq<char>, arch: Seq<char>) -> Seq<
    char,
> {
    trim_trailing_slashes(mirror) + "/"@ + version + "/node-"@ + version + "-win-"@
        + arch_token_of(arch) + ".zip"@
}

/// The address of the zip of release `version` (already in its `v` form)
/// for the architecture setting `arch`, under the mirror base `mirror`.
pub fn download_url(mirror: &str, version: &str, arch: &str) -> (r: String)
    ensures
        r@ == download_url_of(mirror@, version@, arch@),
{
    let mut url = trim_slashes(mirror);
    url.append("/");
    url.append(version);
    url.append("/node-");
    url.append(version);
    url.append("-win-");
    url.append(arch_token(arch));
    url.append(".zip");
    url
}

/// The event reported while the downloaded archive is unpacked. It carries
/// no percent, so that the percents a task reports never go down.
pub fn extracting_event(id: &String) -> (r: ProgressEvent)
    ensures
        r.id@ == id@,
        r.progress is None,
        r.status@ == "Extracting and configuring..."@,
        r.is_paused is None,
        r.finished is None,
        r.error is None,
{
    ProgressEvent::status(id, "Extracting and configuring...")
}

/// How the install of a release ended.
pub enum ReleaseOutcome {
    /// The release was downloaded and unpacked.
    Installed,
    /// A cancel stopped the download.
    Cancelled,
    /// A network, file or archive error stopped it; the message says which.
    Failed(String),
}

/// The last event of a release install: complete at 100 percent; finished
/// with a cancelled status and no error, so that a cancel is told apart from
/// a failure; or the error that stopped it, at 0 percent.
pub fn install_finished_event(id: &String, outcome: &ReleaseOutcome) -> (r: ProgressEvent)
    ensures
        r.id@ == id@,
        r.is_paused is None,
        match outcome {
            ReleaseOutcome::Installed => r.progress == Some(100u32) && r.finished == Some(true)
                && r.error is None && r.status@ == "Installed"@,
            ReleaseOutcome::Cancelled => r.progress is None && r.finished == Some(true)
                && r.error is None && r.status@ == "Cancelled"@,
            ReleaseOutcome::Failed(e) => r.progress == Some(0u32) && r.finished is None && (
            r.error matches Some(m) && m@ == e@) && r.status@ == "Error: "@ + e@,
        },
{
    match outcome {
        ReleaseOutcome::Installed => ProgressEvent::finished(id, Some(100), "Installed"),
        ReleaseOutcome::Cancelled => ProgressEvent::finished(id, None, "Cancelled"),
        ReleaseOutcome::Failed(e) => {
            let status = String::from_str("Error: ").concat(e.as_str());
            ProgressEvent::failed(id, Some(0), status, e.as_str())
        },
    }
}

} // verus!
