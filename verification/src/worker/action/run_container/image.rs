//! Where images are kept, and how an image is pulled and unpacked step by
//! step.
use vstd::prelude::*;
use vstd::string::*;
use crate::shared::oci_image::OciImage;
use crate::shared::cond_group::{CondGroup, Role, role_of, after_join};
use crate::shared::path::{join_path, joined_path};
use crate::shared::text::{concat2, concat3};

verus! {

/// An image name with every `/` turned into `_`, so that it is one path
/// component.
pub open spec fn escaped_image_name(name: Seq<char>) -> Seq<char> {
    name.map_values(|c: char| if c == '/' { '_' } else { c })
}

/// Where what belongs to `image` is kept under `images_root`.
pub open spec fn image_path(images_root: Seq<char>, image: OciImage) -> Seq<char> {
    joined_path(joined_path(images_root, image.registry@), escaped_image_name(image.name@))
}

/// Where the image is kept as it was pulled.
pub open spec fn oci_image_path(images_root: Seq<char>, image: OciImage) -> Seq<char> {
    joined_path(image_path(images_root, image), "oci"@)
}

/// Where the image is kept unpacked.
pub open spec fn unpacked_image_path(images_root: Seq<char>, image: OciImage) -> Seq<char> {
    joined_path(image_path(images_root, image), "unpacked"@)
}

/// The root file system inside the unpacked image.
pub open spec fn rootfs_path(images_root: Seq<char>, image: OciImage) -> Seq<char> {
    joined_path(unpacked_image_path(images_root, image), "rootfs"@)
}

pub fn get_image_path(images_root: &str, image: &OciImage) -> (path: String)
    ensures
        path@ == image_path(images_root@, *image),
{
    let registry_path = join_path(images_root, image.registry.as_str());
    let name = escape_image_name(image.name.as_str());
    join_path(registry_path.as_str(), name.as_str())
}

pub fn get_oci_image_path(images_root: &str, image: &OciImage) -> (path: String)
    ensures
        path@ == oci_image_path(images_root@, *image),
{
    let image_path = get_image_path(images_root, image);
    join_path(image_path.as_str(), "oci")
}

pub fn get_unpacked_image_path(images_root: &str, image: &OciImage) -> (path: String)
    ensures
        path@ == unpacked_image_path(images_root@, *image),
{
    let image_path = get_image_path(images_root, image);
    join_path(image_path.as_str(), "unpacked")
}

pub fn get_rootfs_path(images_root: &str, image: &OciImage) -> (path: String)
    ensures
        path@ == rootfs_path(images_root@, *image),
{
    let unpacked = get_unpacked_image_path(images_root, image);
    join_path(unpacked.as_str(), "rootfs")
}

pub fn escape_image_name(name: &str) -> (escaped: String)
    ensures
        escaped@ == escaped_image_name(name@),
{
    let n = name.unicode_len();
    let mut escaped = String::new();
    let mut i: usize = 0;
    proof {
        reveal_strlit("_");
    }
    while i < n
        invariant
            n == name@.len(),
            i <= n,
            "_"@ == seq!['_'],
            escaped@ == escaped_image_name(name@.subrange(0, i as int)),
        decreases n - i,
    {
        let c = name.get_char(i);
        proof {
            assert(name@.subrange(0, i + 1) =~= name@.subrange(0, i as int).push(c));
        }
        if c == '/' {
            escaped.append("_");
        } else {
            escaped.append(name.substring_char(i, i + 1));
            assert(name@.subrange(i as int, i + 1) =~= seq![c]);
        }
        assert(escaped@ =~= escaped_image_name(name@.subrange(0, i + 1)));
        i += 1;
    }
    assert(name@.subrange(0, n as int) =~= name@);
    escaped
}

/// The seconds that the image-copy tool gives each of its commands.
pub const PULL_TIMEOUT_SECOND: u64 = 180;

/// The seconds after which a pull is given up.
pub const PULL_DEADLINE_SECOND: u64 = 183;

/// The seconds after which an unpacking is given up.
pub const UNPACK_TIMEOUT_SECOND: u64 = 120;

#[derive(Debug, Clone, Copy, PartialEq, Eq, Structural)]
pub enum ImageTool {
    /// The tool that copies an image from a registry.
    Skopeo,
    /// The tool that unpacks an image into a root file system.
    Umoci,
}

/// One run of an outside tool.
#[derive(Debug)]
pub struct ToolCommand {
    pub tool: ImageTool,
    pub args: Vec<String>,
    pub timeout_second: u64,
}

pub open spec fn texts(s: Seq<String>) -> Seq<Seq<char>> {
    s.map_values(|t: String| t@)
}

impl View for ToolCommand {
    type V = (ImageTool, Seq<Seq<char>>, u64);

    open spec fn view(&self) -> (ImageTool, Seq<Seq<char>>, u64) {
        (self.tool, texts(self.args@), self.timeout_second)
    }
}

/// Where the preparation of an image stands.
#[derive(Debug, Clone, Copy, PartialEq, Eq, Structural)]
pub enum PrepareState {
    /// Looking whether the image was pulled before.
    ProbingImage,
    /// Making the directory to pull into.
    CreatingImageDir,
    Pulling,
    /// Looking whether the image was unpacked before.
    ProbingUnpacked,
    /// Making the directory to unpack into.
    CreatingUnpackedDir,
    Unpacking,
    Finished,
}

/// What came of the last thing asked for.
#[derive(Debug)]
pub enum PrepareEvent {
    /// The path that was to be looked at exists, or does not.
    Probed { exists: bool },
    DirCreated,
    DirFailed { detail: String },
    ToolSucceeded,
    /// The tool ended with a failure; `output` is what it printed.
    ToolFailed { output: String },
    ToolTimedOut { detail: String },
    ToolNotStarted { detail: String },
}

/// What is to be done next.
#[derive(Debug)]
pub enum PrepareAction {
    /// Look whether `path` exists.
    Probe { path: String },
    /// Make the directory `path` and those above it.
    CreateDir { path: String },
    Run(ToolCommand),
    /// The preparation is over: with the path of the root file system, or
    /// with the reason why there is none.
    Finish(Result<String, String>),
}

pub enum PrepareActionView {
    Probe { path: Seq<char> },
    CreateDir { path: Seq<char> },
    Run((ImageTool, Seq<Seq<char>>, u64)),
    Finish(Result<Seq<char>, Seq<char>>),
}

impl View for PrepareAction {
    type V = PrepareActionView;

    open spec fn view(&self) -> PrepareActionView {
        match self {
            PrepareAction::Probe { path } => PrepareActionView::Probe { path: path@ },
            PrepareAction::CreateDir { path } => PrepareActionView::CreateDir { path: path@ },
            PrepareAction::Run(command) => PrepareActionView::Run(command@),
            PrepareAction::Finish(Ok(path)) => PrepareActionView::Finish(Ok(path@)),
            PrepareAction::Finish(Err(reason)) => PrepareActionView::Finish(Err(reason@)),
        }
    }
}

#[derive(Debug)]
pub struct PrepareStep {
    pub state: PrepareState,
    pub action: PrepareAction,
}

/// The arguments with which the image-copy tool pulls `image` into `path`.
pub open spec fn pull_args(image: OciImage, path: Seq<char>) -> Seq<Seq<char>> {
    seq![
        "copy"@,
        "docker://"@ + image.registry@ + "/"@ + image.name@ + ":"@ + image.tag@,
        "oci:"@ + path + ":"@ + image.tag@,
        "--command-timeout"@,
        "180s"@,
        "--retry-times"@,
        "3"@,
        "--quiet"@,
    ]
}

/// The arguments with which the unpacker unpacks the image at `path` into
/// `unpacked`, without root rights.
pub open spec fn unpack_args(image: OciImage, path: Seq<char>, unpacked: Seq<char>) -> Seq<
    Seq<char>,
> {
    seq![
        "--log"@,
        "error"@,
        "unpack"@,
        "--rootless"@,
        "--image"@,
        path + ":"@ + image.tag@,
        unpacked,
    ]
}

pub open spec fn pull_command(images_root: Seq<char>, image: OciImage) -> (
    ImageTool,
    Seq<Seq<char>>,
    u64,
) {
    (ImageTool::Skopeo, pull_args(image, oci_image_path(images_root, image)), PULL_DEADLINE_SECOND)
}

pub open spec fn unpack_command(images_root: Seq<char>, image: OciImage) -> (
    ImageTool,
    Seq<Seq<char>>,
    u64,
) {
    (
        ImageTool::Umoci,
        unpack_args(
            image,
            oci_image_path(images_root, image),
            unpacked_image_path(images_root, image),
        ),
        UNPACK_TIMEOUT_SECOND,
    )
}

/// The first thing to do for an image: look whether it was pulled before.
pub open spec fn first_step(images_root: Seq<char>, image: OciImage) -> (
    PrepareState,
    PrepareActionView,
) {
    (
        PrepareState::ProbingImage,
        PrepareActionView::Probe { path: oci_image_path(images_root, image) },
    )
}

pub open spec fn failed(reason: Seq<char>) -> (PrepareState, PrepareActionView) {
    (PrepareState::Finished, PrepareActionView::Finish(Err(reason)))
}

/// What follows when a tool did not succeed, `phase` saying what was being
/// done and `tool` which tool ran.
pub open spec fn tool_failure(phase: Seq<char>, tool: Seq<char>, event: PrepareEvent) -> Seq<char> {
    match event {
        PrepareEvent::ToolFailed { output } => phase + "The "@ + tool
            + " process failed with the following output: "@ + output@,
        PrepareEvent::ToolTimedOut { detail } => phase + "The "@ + tool
            + " process took too long to finish: "@ + detail@,
        PrepareEvent::ToolNotStarted { detail } => phase + "Error executing the "@ + tool
            + " process: "@ + detail@,
        _ => phase + "Unexpected event"@,
    }
}

pub open spec fn pulling() -> Seq<char> {
    "Error pulling the image: "@
}

pub open spec fn unpacking() -> Seq<char> {
    "Error unpacking the image: "@
}

/// What follows `event` in `state`: an image that is there is not pulled
/// again, and one that is unpacked is not unpacked again; each directory is
/// made before the tool that fills it runs; a failure ends the preparation
/// with its reason; at the end stands the path of the root file system.
pub open spec fn next_step(
    images_root: Seq<char>,
    image: OciImage,
    state: PrepareState,
    event: PrepareEvent,
) -> (PrepareState, PrepareActionView) {
    let probe_unpacked = (
        PrepareState::ProbingUnpacked,
        PrepareActionView::Probe { path: unpacked_image_path(images_root, image) },
    );
    let done = (
        PrepareState::Finished,
        PrepareActionView::Finish(Ok(rootfs_path(images_root, image))),
    );
    match (state, event) {
        (PrepareState::ProbingImage, PrepareEvent::Probed { exists }) => if exists {
            probe_unpacked
        } else {
            (
                PrepareState::CreatingImageDir,
                PrepareActionView::CreateDir { path: oci_image_path(images_root, image) },
            )
        },
        (PrepareState::CreatingImageDir, PrepareEvent::DirCreated) => (
            PrepareState::Pulling,
            PrepareActionView::Run(pull_command(images_root, image)),
        ),
        (PrepareState::CreatingImageDir, PrepareEvent::DirFailed { detail }) => failed(
            pulling() + "Error creating the image directory: "@ + detail@,
        ),
        (PrepareState::CreatingImageDir, _) => failed(pulling() + "Unexpected event"@),
        (PrepareState::Pulling, PrepareEvent::ToolSucceeded) => probe_unpacked,
        (PrepareState::Pulling, _) => failed(tool_failure(pulling(), "skopeo"@, event)),
        (PrepareState::ProbingUnpacked, PrepareEvent::Probed { exists }) => if exists {
            done
        } else {
            (
                PrepareState::CreatingUnpackedDir,
                PrepareActionView::CreateDir { path: unpacked_image_path(images_root, image) },
            )
        },
        (PrepareState::CreatingUnpackedDir, PrepareEvent::DirCreated) => (
            PrepareState::Unpacking,
            PrepareActionView::Run(unpack_command(images_root, image)),
        ),
        (PrepareState::CreatingUnpackedDir, PrepareEvent::DirFailed { detail }) => failed(
            unpacking() + "Error creating the unpacked image directory: "@ + detail@,
        ),
        (PrepareState::CreatingUnpackedDir, _) => failed(unpacking() + "Unexpected event"@),
        (PrepareState::Unpacking, PrepareEvent::ToolSucceeded) => done,
        (PrepareState::Unpacking, _) => failed(tool_failure(unpacking(), "umoci"@, event)),
        (PrepareState::ProbingImage, _) => failed(pulling() + "Unexpected event"@),
        (PrepareState::ProbingUnpacked, _) => failed(unpacking() + "Unexpected event"@),
        (PrepareState::Finished, _) => failed("Unexpected event"@),
    }
}

/// How far a preparation has come.
pub open spec fn stage(state: PrepareState) -> nat {
    match state {
        PrepareState::ProbingImage => 0,
        PrepareState::CreatingImageDir => 1,
        PrepareState::Pulling => 2,
        PrepareState::ProbingUnpacked => 3,
        PrepareState::CreatingUnpackedDir => 4,
        PrepareState::Unpacking => 5,
        PrepareState::Finished => 6,
    }
}

/// The step runs the image-copy tool.
pub open spec fn is_pull(action: PrepareActionView) -> bool {
    action matches PrepareActionView::Run(command) && command.0 == ImageTool::Skopeo
}

/// How often the image-copy tool is run while a preparation that stands in
/// `state` sees `events` one after the other.
pub open spec fn pulls_from(
    images_root: Seq<char>,
    image: OciImage,
    state: PrepareState,
    events: Seq<PrepareEvent>,
) -> nat
    decreases events.len(),
{
    if events.len() == 0 {
        0
    } else {
        let next = next_step(images_root, image, state, events[0]);
        let pull: nat = if is_pull(next.1) {
            1
        } else {
            0
        };
        pull + pulls_from(images_root, image, next.0, events.drop_first())
    }
}

/// Every step takes a preparation further, until it is over; the image-copy
/// tool runs in the step that leads to pulling and in no other, the
/// unpacker in the one that leads to unpacking.
pub proof fn lemma_prepare_advances(
    images_root: Seq<char>,
    image: OciImage,
    state: PrepareState,
    event: PrepareEvent,
)
    ensures
        ({
            let next = next_step(images_root, image, state, event);
            &&& state != PrepareState::Finished ==> stage(next.0) > stage(state)
            &&& state == PrepareState::Finished ==> next.0 == PrepareState::Finished
            &&& is_pull(next.1) <==> next.0 == PrepareState::Pulling
            &&& next.1 == PrepareActionView::Run(unpack_command(images_root, image)) <==> next.0
                == PrepareState::Unpacking
            &&& next.1 is Finish <==> next.0 == PrepareState::Finished
        }),
{
}

/// Whatever happens, one preparation runs the image-copy tool at most once.
pub proof fn lemma_pulls_at_most_once(
    images_root: Seq<char>,
    image: OciImage,
    state: PrepareState,
    events: Seq<PrepareEvent>,
)
    ensures
        pulls_from(images_root, image, state, events) <= 1,
        stage(state) >= stage(PrepareState::Pulling) ==> pulls_from(
            images_root,
            image,
            state,
            events,
        ) == 0,
    decreases events.len(),
{
    if events.len() > 0 {
        let next = next_step(images_root, image, state, events[0]);
        lemma_prepare_advances(images_root, image, state, events[0]);
        lemma_pulls_at_most_once(images_root, image, next.0, events.drop_first());
    }
}

/// The command that pulls `image`.
pub fn pull_image(images_root: &str, image: &OciImage) -> (command: ToolCommand)
    ensures
        command@ == pull_command(images_root@, *image),
{
    let path = get_oci_image_path(images_root, image);
    let mut source = String::from_str("docker://");
    source.append(image.registry.as_str());
    source.append("/");
    source.append(image.name.as_str());
    source.append(":");
    source.append(image.tag.as_str());
    let mut target = String::from_str("oci:");
    target.append(path.as_str());
    target.append(":");
    target.append(image.tag.as_str());
    let mut args: Vec<String> = Vec::new();
    args.push(String::from_str("copy"));
    args.push(source);
    args.push(target);
    args.push(String::from_str("--command-timeout"));
    args.push(String::from_str("180s"));
    args.push(String::from_str("--retry-times"));
    args.push(String::from_str("3"));
    args.push(String::from_str("--quiet"));
    let command = ToolCommand {
        tool: ImageTool::Skopeo,
        args,
        timeout_second: PULL_DEADLINE_SECOND,
    };
    assert(command@.1 =~= pull_command(images_root@, *image).1);
    command
}

/// The command that unpacks `image`.
pub fn unpack_image(images_root: &str, image: &OciImage) -> (command: ToolCommand)
    ensures
        command@ == unpack_command(images_root@, *image),
{
    let path = get_oci_image_path(images_root, image);
    let unpacked = get_unpacked_image_path(images_root, image);
    let mut args: Vec<String> = Vec::new();
    args.push(String::from_str("--log"));
    args.push(String::from_str("error"));
    args.push(String::from_str("unpack"));
    args.push(String::from_str("--rootless"));
    args.push(String::from_str("--image"));
    args.push(concat3(path.as_str(), ":", image.tag.as_str()));
    args.push(unpacked);
    let command = ToolCommand {
        tool: ImageTool::Umoci,
        args,
        timeout_second: UNPACK_TIMEOUT_SECOND,
    };
    assert(command@.1 =~= unpack_command(images_root@, *image).1);
    command
}

fn fail(reason: String) -> (step: PrepareStep)
    ensures
        (step.state, step.action@) == failed(reason@),
{
    PrepareStep { state: PrepareState::Finished, action: PrepareAction::Finish(Err(reason)) }
}

fn describe_tool_failure(phase: &str, tool: &str, event: &PrepareEvent) -> (reason: String)
    ensures
        reason@ == tool_failure(phase@, tool@, *event),
{
    let mut reason = String::from_str(phase);
    match event {
        PrepareEvent::ToolFailed { output } => {
            reason.append("The ");
            reason.append(tool);
            reason.append(" process failed with the following output: ");
            reason.append(output.as_str());
        },
        PrepareEvent::ToolTimedOut { detail } => {
            reason.append("The ");
            reason.append(tool);
            reason.append(" process took too long to finish: ");
            reason.append(detail.as_str());
        },
        PrepareEvent::ToolNotStarted { detail } => {
            reason.append("Error executing the ");
            reason.append(tool);
            reason.append(" process: ");
            reason.append(detail.as_str());
        },
        _ => {
            reason.append("Unexpected event");
        },
    }
    reason
}

/// How the preparation of `image` begins.
pub fn begin_prepare_image(images_root: &str, image: &OciImage) -> (step: PrepareStep)
    ensures
        (step.state, step.action@) == first_step(images_root@, *image),
{
    PrepareStep {
        state: PrepareState::ProbingImage,
        action: PrepareAction::Probe { path: get_oci_image_path(images_root, image) },
    }
}

/// How the preparation of `image` goes on after `event` in `state`: first
/// the pull, then the unpacking.
pub fn prepare_image_impl(
    images_root: &str,
    image: &OciImage,
    state: PrepareState,
    event: &PrepareEvent,
) -> (step: PrepareStep)
    ensures
        (step.state, step.action@) == next_step(images_root@, *image, state, *event),
{
    match state {
        PrepareState::ProbingImage => match event {
            PrepareEvent::Probed { exists } => {
                if *exists {
                    PrepareStep {
                        state: PrepareState::ProbingUnpacked,
                        action: PrepareAction::Probe {
                            path: get_unpacked_image_path(images_root, image),
                        },
                    }
                } else {
                    PrepareStep {
                        state: PrepareState::CreatingImageDir,
                        action: PrepareAction::CreateDir {
                            path: get_oci_image_path(images_root, image),
                        },
                    }
                }
            },
            _ => fail(concat2("Error pulling the image: ", "Unexpected event")),
        },
        PrepareState::CreatingImageDir => match event {
            PrepareEvent::DirCreated => PrepareStep {
                state: PrepareState::Pulling,
                action: PrepareAction::Run(pull_image(images_root, image)),
            },
            PrepareEvent::DirFailed { detail } => fail(
                concat3(
                    "Error pulling the image: ",
                    "Error creating the image directory: ",
                    detail.as_str(),
                ),
            ),
            _ => fail(concat2("Error pulling the image: ", "Unexpected event")),
        },
        PrepareState::Pulling => match event {
            PrepareEvent::ToolSucceeded => PrepareStep {
                state: PrepareState::ProbingUnpacked,
                action: PrepareAction::Probe { path: get_unpacked_image_path(images_root, image) },
            },
            _ => fail(describe_tool_failure("Error pulling the image: ", "skopeo", event)),
        },
        PrepareState::ProbingUnpacked => match event {
            PrepareEvent::Probed { exists } => {
                if *exists {
                    PrepareStep {
                        state: PrepareState::Finished,
                        action: PrepareAction::Finish(Ok(get_rootfs_path(images_root, image))),
                    }
                } else {
                    PrepareStep {
                        state: PrepareState::CreatingUnpackedDir,
                        action: PrepareAction::CreateDir {
                            path: get_unpacked_image_path(images_root, image),
                        },
                    }
                }
            },
            _ => fail(concat2("Error unpacking the image: ", "Unexpected event")),
        },
        PrepareState::CreatingUnpackedDir => match event {
            PrepareEvent::DirCreated => PrepareStep {
                state: PrepareState::Unpacking,
                action: PrepareAction::Run(unpack_image(images_root, image)),
            },
            PrepareEvent::DirFailed { detail } => fail(
                concat3(
                    "Error unpacking the image: ",
                    "Error creating the unpacked image directory: ",
                    detail.as_str(),
                ),
            ),
            _ => fail(concat2("Error unpacking the image: ", "Unexpected event")),
        },
        PrepareState::Unpacking => match event {
            PrepareEvent::ToolSucceeded => PrepareStep {
                state: PrepareState::Finished,
                action: PrepareAction::Finish(Ok(get_rootfs_path(images_root, image))),
            },
            _ => fail(describe_tool_failure("Error unpacking the image: ", "umoci", event)),
        },
        PrepareState::Finished => fail(String::from_str("Unexpected event")),
    }
}

/// What a caller who wants `image` does: where nobody is preparing the
/// image, the caller begins to; else it waits for the one who is.
#[derive(Debug)]
pub enum PrepareEntry {
    Lead(PrepareStep),
    Follow,
}

/// A caller comes for `image`. All who come for one image while its
/// preparation is under way share that preparation.
pub fn prepare_image(group: &mut CondGroup, images_root: &str, image: &OciImage) -> (entry:
    PrepareEntry)
    requires
        old(group).wf(),
    ensures
        final(group).wf(),
        final(group)@ == after_join(old(group)@, image@),
        match entry {
            PrepareEntry::Lead(step) => role_of(old(group)@, image@) == Role::Leader && (
                step.state,
                step.action@,
            ) == first_step(images_root@, *image),
            PrepareEntry::Follow => role_of(old(group)@, image@) == Role::Follower,
        },
{
    match group.join(image) {
        Role::Leader => PrepareEntry::Lead(begin_prepare_image(images_root, image)),
        Role::Follower => PrepareEntry::Follow,
    }
}

} // verus!
