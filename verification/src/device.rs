//! Storage devices of the guest: their errors, their cleanup and their installation.

use vstd::prelude::*;

use crate::names::KATA_SHAREDFS_GUEST_PREMOUNT_TAG;
use crate::text::{
    joined, law_joined_pieces_split_back, law_split_pieces_join_back, same_text, split, split_text,
    texts,
};
use crate::text_map::TextMap;
use crate::types::Storage;

verus! {

/// Why a storage operation fails.
#[derive(Debug)]
pub enum StorageError {
    /// A step outside of this library failed.
    Outside(String),
    /// The storage that another owner initializes did not become ready.
    WaitStorage { mount_point: String, reason: String },
    /// A storage of a multi-layer group that another owner initializes did not become ready.
    WaitGroup { mount_point: String, reason: String },
    /// A multi-layer group has no storage.
    EmptyGroup,
    /// Only some of the storages of a multi-layer group are initialized by others.
    MixedOwnership,
    /// Another multi-layer group was mounted than the one that was claimed.
    GroupChanged,
    /// No handler manages the driver.
    NoHandler(String),
    /// The storage was taken over by another owner before its device was installed.
    OwnershipLost(String),
    /// The sandbox refused the device.
    InstallRefused(String),
    /// The device is mounted after it has been unmounted.
    StillMounted(String),
    /// The mount point of a device holds something.
    DirectoryNotEmpty,
    /// The mount point of a device is of no use.
    NeitherDirectoryNorFile(String),
}

impl StorageError {
    /// The text of the message for this error.
    pub open spec fn text(&self) -> Seq<char> {
        match self {
            StorageError::Outside(reason) => reason@,
            StorageError::WaitStorage { mount_point, reason } => "wait for sandbox storage "@
                + mount_point@ + ": "@ + reason@,
            StorageError::WaitGroup { mount_point, reason } => "wait for multi-layer sandbox storage "@
                + mount_point@ + ": "@ + reason@,
            StorageError::EmptyGroup => "multi-layer storage group is empty"@,
            StorageError::MixedOwnership =>
                "multi-layer storage group has mixed initialized and uninitialized ownership"@,
            StorageError::GroupChanged =>
                "multi-layer storage group changed after lifecycle ownership was claimed"@,
            StorageError::NoHandler(driver) => "Failed to find the storage handler "@ + driver@,
            StorageError::OwnershipLost(mount_point) => "storage initialization ownership was lost before installing device: "@
                + mount_point@,
            StorageError::InstallRefused(mount_point) => "failed to update device for storage: "@
                + mount_point@,
            StorageError::StillMounted(path) => "failed to umount mountpoint "@ + path@,
            StorageError::DirectoryNotEmpty => "directory is not empty when clean up storage"@,
            StorageError::NeitherDirectoryNorFile(path) => "storage path "@ + path@
                + " is neither directory nor file"@,
        }
    }

    /// The message for this error.
    pub fn message(&self) -> (message: String)
        ensures
            message@ == self.text(),
    {
        match self {
            StorageError::Outside(reason) => reason.clone(),
            StorageError::WaitStorage { mount_point, reason } => {
                let mut text = "wait for sandbox storage ".to_owned();
                text.append(mount_point.as_str());
                text.append(": ");
                text.append(reason.as_str());
                text
            },
            StorageError::WaitGroup { mount_point, reason } => {
                let mut text = "wait for multi-layer sandbox storage ".to_owned();
                text.append(mount_point.as_str());
                text.append(": ");
                text.append(reason.as_str());
                text
            },
            StorageError::EmptyGroup => "multi-layer storage group is empty".to_owned(),
            StorageError::MixedOwnership => {
                "multi-layer storage group has mixed initialized and uninitialized ownership".to_owned()
            },
            StorageError::GroupChanged => {
                "multi-layer storage group changed after lifecycle ownership was claimed".to_owned()
            },
            StorageError::NoHandler(driver) => {
                let mut text = "Failed to find the storage handler ".to_owned();
                text.append(driver.as_str());
                text
            },
            StorageError::OwnershipLost(mount_point) => {
                let mut text = "storage initialization ownership was lost before installing device: ".to_owned();
                text.append(mount_point.as_str());
                text
            },
            StorageError::InstallRefused(mount_point) => {
                let mut text = "failed to update device for storage: ".to_owned();
                text.append(mount_point.as_str());
                text
            },
            StorageError::StillMounted(path) => {
                let mut text = "failed to umount mountpoint ".to_owned();
                text.append(path.as_str());
                text
            },
            StorageError::DirectoryNotEmpty => {
                "directory is not empty when clean up storage".to_owned()
            },
            StorageError::NeitherDirectoryNorFile(path) => {
                let mut text = "storage path ".to_owned();
                text.append(path.as_str());
                text.append(" is neither directory nor file");
                text
            },
        }
    }
}

/// An implementation of generic storage device.
#[derive(Debug)]
pub struct StorageDeviceGeneric {
    path: Option<String>,
}

impl Default for StorageDeviceGeneric {
    fn default() -> (device: Self)
        ensures
            device@ is None,
    {
        StorageDeviceGeneric { path: None }
    }
}

impl View for StorageDeviceGeneric {
    type V = Option<String>;

    closed spec fn view(&self) -> Option<String> {
        self.path
    }
}

/// A step of the cleanup of a storage device. Each but the last asks for an answer.
#[derive(Debug)]
pub enum DeviceCleanup {
    /// Does the path exist?
    CheckExists,
    /// Is something mounted at the path?
    CheckMounted,
    /// Unmount what is mounted at the path.
    Unmount,
    /// Is something still mounted at the path?
    CheckUnmounted,
    /// Is the path a directory?
    CheckDirectory,
    /// Is the directory empty?
    CheckEmpty,
    /// Remove the directory, if that can be done.
    RemoveDirectory,
    /// Is the path a file?
    CheckFile,
    /// The cleanup is over.
    Done(Result<(), StorageError>),
}

/// What came of a step.
#[derive(Debug)]
pub enum Answer {
    Yes,
    No,
    Failed(String),
}

/// The step after an answer.
pub open spec fn device_cleanup_after(path: String, at: DeviceCleanup, answer: Answer) -> DeviceCleanup {
    match (at, answer) {
        (DeviceCleanup::CheckExists, Answer::Yes) => DeviceCleanup::CheckMounted,
        (DeviceCleanup::CheckExists, _) => DeviceCleanup::Done(Ok(())),
        (DeviceCleanup::CheckMounted, Answer::Yes) => DeviceCleanup::Unmount,
        (DeviceCleanup::CheckMounted, _) => DeviceCleanup::CheckUnmounted,
        (DeviceCleanup::Unmount, Answer::Failed(reason)) => DeviceCleanup::Done(
            Err(StorageError::Outside(reason)),
        ),
        (DeviceCleanup::Unmount, _) => DeviceCleanup::CheckUnmounted,
        (DeviceCleanup::CheckUnmounted, Answer::Yes) => DeviceCleanup::Done(
            Err(StorageError::StillMounted(path)),
        ),
        (DeviceCleanup::CheckUnmounted, _) => DeviceCleanup::CheckDirectory,
        (DeviceCleanup::CheckDirectory, Answer::Yes) => DeviceCleanup::CheckEmpty,
        (DeviceCleanup::CheckDirectory, _) => DeviceCleanup::CheckFile,
        (DeviceCleanup::CheckEmpty, Answer::Yes) => DeviceCleanup::RemoveDirectory,
        (DeviceCleanup::CheckEmpty, Answer::No) => DeviceCleanup::Done(
            Err(StorageError::DirectoryNotEmpty),
        ),
        (DeviceCleanup::CheckEmpty, Answer::Failed(reason)) => DeviceCleanup::Done(
            Err(StorageError::Outside(reason)),
        ),
        (DeviceCleanup::RemoveDirectory, _) => DeviceCleanup::Done(Ok(())),
        (DeviceCleanup::CheckFile, Answer::Yes) => DeviceCleanup::Done(Ok(())),
        (DeviceCleanup::CheckFile, _) => DeviceCleanup::Done(
            Err(StorageError::NeitherDirectoryNorFile(path)),
        ),
        (DeviceCleanup::Done(result), _) => DeviceCleanup::Done(result),
    }
}

impl StorageDeviceGeneric {
    /// A device at a path.
    pub fn new(path: String) -> (device: Self)
        ensures
            device@ == Some(path),
    {
        StorageDeviceGeneric { path: Some(path) }
    }

    /// The path of the device.
    pub fn path(&self) -> (path: Option<&str>)
        ensures
            match path {
                Some(path) => self@ is Some && path@ == (self@->0)@,
                None => self@ is None,
            },
    {
        match &self.path {
            Some(path) => Some(path.as_str()),
            None => None,
        }
    }

    /// The first step of the cleanup. A device without a path has nothing to clean up, and so has
    /// one with an empty path.
    pub fn begin_cleanup(&self) -> (first: DeviceCleanup)
        ensures
            first == match self@ {
                Some(path) => if path@.len() == 0 {
                    DeviceCleanup::Done(Ok(()))
                } else {
                    DeviceCleanup::CheckExists
                },
                None => DeviceCleanup::Done(Ok(())),
            },
    {
        match &self.path {
            Some(path) => {
                if path.as_str().unicode_len() == 0 {
                    DeviceCleanup::Done(Ok(()))
                } else {
                    DeviceCleanup::CheckExists
                }
            },
            None => DeviceCleanup::Done(Ok(())),
        }
    }

    /// The next step of the cleanup, from what came of a step.
    pub fn cleanup(&self, at: DeviceCleanup, answer: Answer) -> (next: DeviceCleanup)
        ensures
            next == match self@ {
                Some(path) => device_cleanup_after(path, at, answer),
                None => DeviceCleanup::Done(Ok(())),
            },
    {
        let path = match &self.path {
            Some(path) => path.clone(),
            None => {
                return DeviceCleanup::Done(Ok(()));
            },
        };
        match at {
            DeviceCleanup::CheckExists => match answer {
                Answer::Yes => DeviceCleanup::CheckMounted,
                _ => DeviceCleanup::Done(Ok(())),
            },
            DeviceCleanup::CheckMounted => match answer {
                Answer::Yes => DeviceCleanup::Unmount,
                _ => DeviceCleanup::CheckUnmounted,
            },
            DeviceCleanup::Unmount => match answer {
                Answer::Failed(reason) => DeviceCleanup::Done(Err(StorageError::Outside(reason))),
                _ => DeviceCleanup::CheckUnmounted,
            },
            DeviceCleanup::CheckUnmounted => match answer {
                Answer::Yes => DeviceCleanup::Done(Err(StorageError::StillMounted(path))),
                _ => DeviceCleanup::CheckDirectory,
            },
            DeviceCleanup::CheckDirectory => match answer {
                Answer::Yes => DeviceCleanup::CheckEmpty,
                _ => DeviceCleanup::CheckFile,
            },
            DeviceCleanup::CheckEmpty => match answer {
                Answer::Yes => DeviceCleanup::RemoveDirectory,
                Answer::No => DeviceCleanup::Done(Err(StorageError::DirectoryNotEmpty)),
                Answer::Failed(reason) => DeviceCleanup::Done(Err(StorageError::Outside(reason))),
            },
            DeviceCleanup::RemoveDirectory => DeviceCleanup::Done(Ok(())),
            DeviceCleanup::CheckFile => match answer {
                Answer::Yes => DeviceCleanup::Done(Ok(())),
                _ => DeviceCleanup::Done(Err(StorageError::NeitherDirectoryNorFile(path))),
            },
            DeviceCleanup::Done(result) => DeviceCleanup::Done(result),
        }
    }
}

/// A new device at a path.
pub fn new_device(path: String) -> (device: StorageDeviceGeneric)
    ensures
        device@ == Some(path),
{
    StorageDeviceGeneric::new(path)
}

/// How many steps of a device cleanup are left at most.
pub open spec fn cleanup_steps_left(at: DeviceCleanup) -> nat {
    match at {
        DeviceCleanup::CheckExists => 7,
        DeviceCleanup::CheckMounted => 6,
        DeviceCleanup::Unmount => 5,
        DeviceCleanup::CheckUnmounted => 4,
        DeviceCleanup::CheckDirectory => 3,
        DeviceCleanup::CheckEmpty => 2,
        DeviceCleanup::RemoveDirectory => 1,
        DeviceCleanup::CheckFile => 1,
        DeviceCleanup::Done(_) => 0,
    }
}

/// The cleanup of a device comes to an end, and it removes only a directory that was found to be
/// empty. What follows a failed or refused unmount is an error.
pub proof fn law_device_cleanup_removes_empty_directories_only(
    path: String,
    at: DeviceCleanup,
    answer: Answer,
)
    ensures
        ({
            let next = device_cleanup_after(path, at, answer);
            &&& !(at is Done) ==> cleanup_steps_left(next) < cleanup_steps_left(at)
            &&& next is RemoveDirectory ==> at is CheckEmpty && answer is Yes
            &&& next is CheckEmpty ==> at is CheckDirectory && answer is Yes
            &&& next is CheckDirectory ==> at is CheckUnmounted && !(answer is Yes)
            &&& at is CheckUnmounted && answer is Yes ==> next == DeviceCleanup::Done(
                Err(StorageError::StillMounted(path)),
            )
            &&& at is Unmount && answer is Failed ==> next matches DeviceCleanup::Done(Err(_))
        }),
{
}

/// A step of handing a created device over to the sandbox.
#[derive(Clone, Copy, Debug, PartialEq, Eq, Structural)]
pub enum InstallStep {
    /// Leave the device with the claim, so that it is cleaned up should the rest not happen.
    Retain,
    /// Hand the device to the sandbox.
    Install,
    /// Mark the initialization as failed, and leave the device with the claim.
    Recover,
    /// Clean the device up: nobody owns it, since the claim was lost.
    CleanLost,
    /// Clean the device up: nobody owns it, since it was refused.
    CleanRefused,
    /// The device is installed.
    Installed,
    /// The claim was lost.
    Lost,
    /// The device was refused.
    Refused,
}

/// The step after one that was accepted or not.
pub open spec fn install_after(at: InstallStep, accepted: bool) -> InstallStep {
    match at {
        InstallStep::Retain => if accepted {
            InstallStep::Install
        } else {
            InstallStep::CleanLost
        },
        InstallStep::Install => if accepted {
            InstallStep::Installed
        } else {
            InstallStep::Recover
        },
        InstallStep::Recover => if accepted {
            InstallStep::Refused
        } else {
            InstallStep::CleanRefused
        },
        InstallStep::CleanLost => InstallStep::Lost,
        InstallStep::CleanRefused => InstallStep::Refused,
        InstallStep::Installed => InstallStep::Installed,
        InstallStep::Lost => InstallStep::Lost,
        InstallStep::Refused => InstallStep::Refused,
    }
}

/// Goes on with handing a device over to the sandbox, beginning with [`InstallStep::Retain`].
pub fn update_storage_device(at: InstallStep, accepted: bool) -> (next: InstallStep)
    ensures
        next == install_after(at, accepted),
{
    match at {
        InstallStep::Retain => if accepted {
            InstallStep::Install
        } else {
            InstallStep::CleanLost
        },
        InstallStep::Install => if accepted {
            InstallStep::Installed
        } else {
            InstallStep::Recover
        },
        InstallStep::Recover => if accepted {
            InstallStep::Refused
        } else {
            InstallStep::CleanRefused
        },
        InstallStep::CleanLost => InstallStep::Lost,
        InstallStep::CleanRefused => InstallStep::Refused,
        InstallStep::Installed => InstallStep::Installed,
        InstallStep::Lost => InstallStep::Lost,
        InstallStep::Refused => InstallStep::Refused,
    }
}

/// What handing a device over amounts to, once it has come to an end.
pub fn install_outcome(at: InstallStep, mount_point: &String) -> (outcome: Option<
    Result<(), StorageError>,
>)
    ensures
        outcome == match at {
            InstallStep::Installed => Some(Ok(())),
            InstallStep::Lost => Some(Err(StorageError::OwnershipLost(*mount_point))),
            InstallStep::Refused => Some(Err(StorageError::InstallRefused(*mount_point))),
            _ => None,
        },
{
    match at {
        InstallStep::Installed => Some(Ok(())),
        InstallStep::Lost => Some(Err(StorageError::OwnershipLost(mount_point.clone()))),
        InstallStep::Refused => Some(Err(StorageError::InstallRefused(mount_point.clone()))),
        _ => None,
    }
}

/// The end of handing a device over, from the answers to its first three steps.
pub open spec fn install_end(retained: bool, installed: bool, recovered: bool) -> InstallStep {
    install_after(
        install_after(
            install_after(install_after(InstallStep::Retain, retained), installed),
            recovered,
        ),
        true,
    )
}

/// A device never goes without an owner: it ends up with the sandbox, stays with its claim, or is
/// cleaned up, which happens if and only if neither took it.
pub proof fn law_created_device_has_an_owner(retained: bool, installed: bool, recovered: bool)
    ensures
        install_end(retained, installed, recovered) == if !retained {
            InstallStep::Lost
        } else if installed {
            InstallStep::Installed
        } else {
            InstallStep::Refused
        },
        install_after(InstallStep::Retain, retained) == InstallStep::CleanLost <==> !retained,
        retained && !installed ==> (install_after(
            install_after(install_after(InstallStep::Retain, retained), installed),
            recovered,
        ) == InstallStep::CleanRefused <==> !recovered),
{
}

/// Who sees to it that a created device is cleaned up.
pub enum DeviceHolder {
    /// Nobody but the handover itself.
    Handover,
    /// The claim that the device was left with.
    Claim,
    /// The sandbox, which has the device installed.
    Sandbox,
    /// Nobody any more: the handover has had the device clean up, whether or not that worked.
    CleanupCalled,
}

/// Who holds a device after a step that was accepted or not. A refused installation leaves the
/// device with the claim, and a refused recovery hands it back.
pub open spec fn holder_after(
    at: InstallStep,
    accepted: bool,
    holder: DeviceHolder,
) -> DeviceHolder {
    match at {
        InstallStep::Retain => if accepted {
            DeviceHolder::Claim
        } else {
            DeviceHolder::Handover
        },
        InstallStep::Install => if accepted {
            DeviceHolder::Sandbox
        } else {
            holder
        },
        InstallStep::Recover => if accepted {
            DeviceHolder::Claim
        } else {
            DeviceHolder::Handover
        },
        InstallStep::CleanLost => DeviceHolder::CleanupCalled,
        InstallStep::CleanRefused => DeviceHolder::CleanupCalled,
        _ => holder,
    }
}

/// The step that a handover has reached, and who holds the device, after the answers to its steps
/// so far.
pub open spec fn handover_after(answers: Seq<bool>) -> (InstallStep, DeviceHolder)
    decreases answers.len(),
{
    if answers.len() == 0 {
        (InstallStep::Retain, DeviceHolder::Handover)
    } else {
        let (at, holder) = handover_after(answers.drop_last());
        (
            install_after(at, answers.last()),
            holder_after(at, answers.last(), holder),
        )
    }
}

/// A handover that stops midway leaves the device with a cleanup owner. Wherever it stops, it has
/// come to installing the device, or beyond, only if the claim retained the device before. While
/// the sandbox is waited for, the claim holds the device. Nobody but the handover holds it only
/// before it was offered to the claim, or while the very next step is to clean it up. A refused
/// device stays with the claim if that took it back, and was told to clean up otherwise.
pub proof fn law_stopped_handover_keeps_a_cleanup_owner(answers: Seq<bool>)
    ensures
        ({
            let (at, holder) = handover_after(answers);
            &&& at is Install || at is Recover || at is Installed || at is Refused
                ==> answers.len() > 0 && answers[0]
            &&& holder is Handover <==> at is Retain || at is CleanLost || at is CleanRefused
            &&& at is Install || at is Recover ==> holder is Claim
            &&& at is Installed ==> holder is Sandbox
            &&& at is Lost ==> holder is CleanupCalled
            &&& at is Refused ==> answers.len() > 2 && holder == if answers[2] {
                DeviceHolder::Claim
            } else {
                DeviceHolder::CleanupCalled
            }
        }),
{
    lemma_handover_steps(answers);
}

/// Which answers lead to each step, and who holds the device there.
proof fn lemma_handover_steps(answers: Seq<bool>)
    ensures
        ({
            let (at, holder) = handover_after(answers);
            match at {
                InstallStep::Retain => answers.len() == 0 && holder is Handover,
                InstallStep::Install => answers.len() == 1 && answers[0] && holder is Claim,
                InstallStep::CleanLost => answers.len() == 1 && holder is Handover,
                InstallStep::Recover => answers.len() == 2 && answers[0] && holder is Claim,
                InstallStep::CleanRefused => {
                    answers.len() == 3 && answers[0] && !answers[2] && holder is Handover
                },
                InstallStep::Installed => {
                    answers.len() > 1 && answers[0] && holder is Sandbox
                },
                InstallStep::Lost => answers.len() > 1 && holder is CleanupCalled,
                InstallStep::Refused => answers.len() > 2 && answers[0] && holder == if answers[2] {
                    DeviceHolder::Claim
                } else {
                    DeviceHolder::CleanupCalled
                },
            }
        }),
    decreases answers.len(),
{
    if answers.len() > 0 {
        lemma_handover_steps(answers.drop_last());
    }
}

/// What is done to mount a storage.
#[derive(Debug)]
pub enum MountStep {
    /// Find out whether something is mounted at the mount point.
    CheckMounted,
    /// Nothing: the storage was mounted before the agent started.
    AlreadyMounted,
    /// Create the mount point and mount the source there.
    Mount,
    /// Give up.
    Failed(StorageError),
}

/// Decides how a storage is mounted. `mounted` says whether something is mounted at the mount
/// point, once that has been found out.
pub fn mount_storage(storage: &Storage, mounted: Option<Result<bool, String>>) -> (step: MountStep)
    ensures
        step == if storage.source@ != KATA_SHAREDFS_GUEST_PREMOUNT_TAG@ {
            MountStep::Mount
        } else {
            match mounted {
                None => MountStep::CheckMounted,
                Some(Ok(true)) => MountStep::AlreadyMounted,
                Some(Ok(false)) => MountStep::Mount,
                Some(Err(reason)) => MountStep::Failed(StorageError::Outside(reason)),
            }
        },
{
    if !same_text(storage.source.as_str(), KATA_SHAREDFS_GUEST_PREMOUNT_TAG) {
        return MountStep::Mount;
    }
    match mounted {
        None => MountStep::CheckMounted,
        Some(Ok(mounted)) => {
            if mounted {
                MountStep::AlreadyMounted
            } else {
                MountStep::Mount
            }
        },
        Some(Err(reason)) => MountStep::Failed(StorageError::Outside(reason)),
    }
}

/// The key and the value of an option, where it has exactly one equals sign.
pub open spec fn option_fields(option: Seq<char>) -> Option<(Seq<char>, Seq<char>)> {
    let fields = split(option, '=');
    if fields.len() == 2 {
        Some((fields[0], fields[1]))
    } else {
        None
    }
}

/// The values that options give to keys. A later option overrides an earlier one.
pub open spec fn options_map(options: Seq<Seq<char>>) -> Map<Seq<char>, Seq<char>>
    decreases options.len(),
{
    if options.len() == 0 {
        Map::empty()
    } else {
        match option_fields(options.last()) {
            Some((key, value)) => options_map(options.drop_last()).insert(key, value),
            None => options_map(options.drop_last()),
        }
    }
}

/// Whether a map of strings holds the given contents.
pub open spec fn holds_texts(
    map: Map<Seq<char>, String>,
    contents: Map<Seq<char>, Seq<char>>,
) -> bool {
    &&& map.dom() == contents.dom()
    &&& forall|key: Seq<char>| #[trigger] map.dom().contains(key) ==> map[key]@ == contents[key]
}

/// Reads options of the form key=value. Others are left out.
pub fn parse_options(option_list: &Vec<String>) -> (options: TextMap<String>)
    ensures
        holds_texts(options@, options_map(texts(option_list@))),
{
    let mut options: TextMap<String> = TextMap::new();
    let mut i: usize = 0;
    assert(texts(option_list@).take(0) =~= Seq::<Seq<char>>::empty());
    assert(options@.dom() =~= options_map(texts(option_list@).take(0)).dom());
    while i < option_list.len()
        invariant
            i <= option_list.len(),
            holds_texts(options@, options_map(texts(option_list@).take(i as int))),
        decreases option_list.len() - i,
    {
        let ghost before = options_map(texts(option_list@).take(i as int));
        assert(texts(option_list@).take(i + 1).drop_last() =~= texts(option_list@).take(i as int));
        let fields = split_text(option_list[i].as_str(), '=');
        assert(fields@.len() == texts(fields@).len());
        if fields.len() == 2 {
            assert(fields@[0]@ == texts(fields@)[0] && fields@[1]@ == texts(fields@)[1]);
            options.insert(fields[0].clone(), fields[1].clone());
            assert(options@.dom() =~= before.insert(fields@[0]@, fields@[1]@).dom());
        }
        i = i + 1;
    }
    assert(texts(option_list@).take(option_list@.len() as int) =~= texts(option_list@));
    options
}

/// What is found out about the path of a device while it is cleaned up.
pub struct PathFacts {
    pub exists: Answer,
    pub mounted: Answer,
    pub unmounted: Answer,
    pub still_mounted: Answer,
    pub directory: Answer,
    pub empty: Answer,
    pub removed: Answer,
    pub file: Answer,
}

/// The answer that a step of a cleanup gets.
pub open spec fn answer_to(step: DeviceCleanup, facts: PathFacts) -> Answer {
    match step {
        DeviceCleanup::CheckExists => facts.exists,
        DeviceCleanup::CheckMounted => facts.mounted,
        DeviceCleanup::Unmount => facts.unmounted,
        DeviceCleanup::CheckUnmounted => facts.still_mounted,
        DeviceCleanup::CheckDirectory => facts.directory,
        DeviceCleanup::CheckEmpty => facts.empty,
        DeviceCleanup::RemoveDirectory => facts.removed,
        DeviceCleanup::CheckFile => facts.file,
        DeviceCleanup::Done(_) => Answer::Yes,
    }
}

/// Whether steps are those of the cleanup of a device, from its start on.
pub open spec fn is_cleanup(
    device: StorageDeviceGeneric,
    facts: PathFacts,
    steps: Seq<DeviceCleanup>,
) -> bool {
    &&& steps.len() == 8
    &&& call_ensures(StorageDeviceGeneric::begin_cleanup, (&device,), steps[0])
    &&& forall|i: int|
        0 <= i < 7 ==> call_ensures(
            StorageDeviceGeneric::cleanup,
            (&device, #[trigger] steps[i], answer_to(steps[i], facts)),
            steps[i + 1],
        )
}

/// What the cleanup of a device comes to. A device without a path, or whose path does not exist, has
/// nothing to clean up, and nothing is done. Else what is mounted there is unmounted, and nothing
/// else is; it is an error if that fails or if something is mounted still. Then a directory is
/// removed if it is empty, and no other is; a directory that is not empty, and a path that is
/// neither directory nor file, are errors.
pub proof fn law_device_is_unmounted_and_its_directory_removed(
    path: Option<String>,
    device: StorageDeviceGeneric,
    facts: PathFacts,
    steps: Seq<DeviceCleanup>,
)
    requires
        path is Some ==> call_ensures(StorageDeviceGeneric::new, (path->0,), device),
        path is None ==> call_ensures(
            <StorageDeviceGeneric as Default>::default,
            (),
            device,
        ),
        is_cleanup(device, facts, steps),
    ensures
        ({
            let there = path is Some && path->0@.len() > 0 && facts.exists is Yes;
            let unmounts = there && facts.mounted is Yes;
            let stuck = unmounts && facts.unmounted is Failed;
            let free = there && !stuck && !(facts.still_mounted is Yes);
            &&& steps.contains(DeviceCleanup::Unmount) <==> unmounts
            &&& steps.contains(DeviceCleanup::RemoveDirectory) <==> free && facts.directory is Yes
                && facts.empty is Yes
            &&& steps[7] == DeviceCleanup::Done(
                if !there {
                    Ok(())
                } else if stuck {
                    Err(StorageError::Outside(facts.unmounted->Failed_0))
                } else if facts.still_mounted is Yes {
                    Err(StorageError::StillMounted(path->0))
                } else if facts.directory is Yes {
                    match facts.empty {
                        Answer::Yes => Ok(()),
                        Answer::No => Err(StorageError::DirectoryNotEmpty),
                        Answer::Failed(reason) => Err(StorageError::Outside(reason)),
                    }
                } else if facts.file is Yes {
                    Ok(())
                } else {
                    Err(StorageError::NeitherDirectoryNorFile(path->0))
                },
            )
        }),
{
    assert(call_ensures(
        StorageDeviceGeneric::cleanup,
        (&device, steps[0], answer_to(steps[0], facts)),
        steps[1],
    ));
    assert(call_ensures(
        StorageDeviceGeneric::cleanup,
        (&device, steps[1], answer_to(steps[1], facts)),
        steps[2],
    ));
    assert(call_ensures(
        StorageDeviceGeneric::cleanup,
        (&device, steps[2], answer_to(steps[2], facts)),
        steps[3],
    ));
    assert(call_ensures(
        StorageDeviceGeneric::cleanup,
        (&device, steps[3], answer_to(steps[3], facts)),
        steps[4],
    ));
    assert(call_ensures(
        StorageDeviceGeneric::cleanup,
        (&device, steps[4], answer_to(steps[4], facts)),
        steps[5],
    ));
    assert(call_ensures(
        StorageDeviceGeneric::cleanup,
        (&device, steps[5], answer_to(steps[5], facts)),
        steps[6],
    ));
    assert(call_ensures(
        StorageDeviceGeneric::cleanup,
        (&device, steps[6], answer_to(steps[6], facts)),
        steps[7],
    ));
    assert forall|step: DeviceCleanup| #[trigger] steps.contains(step) <==> (step == steps[0]
        || step == steps[1] || step == steps[2] || step == steps[3] || step == steps[4] || step
        == steps[5] || step == steps[6] || step == steps[7]) by {
        if steps.contains(step) {
            let i = choose|i: int| 0 <= i < steps.len() && steps[i] == step;
        }
    }
}

/// A device has the path that it was made with.
pub proof fn law_device_has_the_path_it_was_made_with(
    path: String,
    device: StorageDeviceGeneric,
    other: StorageDeviceGeneric,
    read: Option<&str>,
    none: StorageDeviceGeneric,
    nothing: Option<&str>,
)
    requires
        call_ensures(new_device, (path,), device),
        call_ensures(StorageDeviceGeneric::new, (path,), other),
        call_ensures(StorageDeviceGeneric::path, (&device,), read),
        call_ensures(<StorageDeviceGeneric as Default>::default, (), none),
        call_ensures(StorageDeviceGeneric::path, (&none,), nothing),
    ensures
        read is Some,
        read->0@ == path@,
        device@ == other@,
        nothing is None,
{
}

/// What handing a device over comes to. It is installed exactly where the claim retained it and the
/// sandbox took it. Where the claim refused it, it is cleaned up at once and never offered to the
/// sandbox. Where the sandbox refused it, it is cleaned up unless the claim took it back. Both are
/// errors that name the mount point.
pub proof fn law_handover_comes_to_what_was_answered(
    retained: bool,
    installed: bool,
    recovered: bool,
    any: bool,
    second: InstallStep,
    third: InstallStep,
    fourth: InstallStep,
    last: InstallStep,
    mount_point: String,
    outcome: Option<Result<(), StorageError>>,
)
    requires
        call_ensures(update_storage_device, (InstallStep::Retain, retained), second),
        call_ensures(
            update_storage_device,
            (
                second,
                if retained {
                    installed
                } else {
                    any
                },
            ),
            third,
        ),
        call_ensures(update_storage_device, (third, recovered), fourth),
        call_ensures(update_storage_device, (fourth, any), last),
        call_ensures(install_outcome, (last, &mount_point), outcome),
    ensures
        !retained ==> {
            &&& second is CleanLost
            &&& third is Lost && fourth is Lost && last is Lost
            &&& outcome == Some(Err::<(), _>(StorageError::OwnershipLost(mount_point)))
        },
        retained ==> second is Install,
        retained && installed ==> {
            &&& third is Installed && fourth is Installed && last is Installed
            &&& outcome == Some(Ok::<(), StorageError>(()))
        },
        retained && !installed ==> {
            &&& third is Recover
            &&& recovered ==> fourth is Refused
            &&& !recovered ==> fourth is CleanRefused
            &&& last is Refused
            &&& outcome == Some(Err::<(), _>(StorageError::InstallRefused(mount_point)))
        },
{
}

/// A storage is mounted unless it is the share that was mounted before the agent started, and that
/// one is mounted only where nothing is found at its mount point.
pub proof fn law_premounted_share_is_not_mounted_again(
    storage: Storage,
    first: MountStep,
    found: Result<bool, String>,
    second: MountStep,
)
    requires
        call_ensures(mount_storage, (&storage, None), first),
        call_ensures(mount_storage, (&storage, Some(found)), second),
    ensures
        storage.source@ != "kataShared"@ ==> first is Mount && second is Mount,
        storage.source@ == "kataShared"@ ==> {
            &&& first is CheckMounted
            &&& found is Ok ==> if found->Ok_0 {
                second is AlreadyMounted
            } else {
                second is Mount
            }
            &&& found is Err ==> second == MountStep::Failed(StorageError::Outside(found->Err_0))
        },
{
}

proof fn lemma_option_fields(option: Seq<char>, key: Seq<char>, value: Seq<char>)
    ensures
        option_fields(option) == Some((key, value)) <==> option == key + seq!['='] + value
            && !key.contains('=') && !value.contains('='),
{
    let fields = split(option, '=');
    law_split_pieces_join_back(option, '=');
    if fields.len() == 2 {
        assert(fields.drop_last() =~= seq![fields[0]]);
        assert(joined(seq![fields[0]], seq!['=']) == fields[0]);
        assert(option == fields[0] + seq!['='] + fields[1]);
        assert(!fields[0].contains('=') && !fields[1].contains('='));
    }
    if option == key + seq!['='] + value && !key.contains('=') && !value.contains('=') {
        let pair = seq![key, value];
        assert(pair.drop_last() =~= seq![key]);
        assert(joined(seq![key], seq!['=']) == key);
        assert(joined(pair, seq!['=']) == option);
        law_joined_pieces_split_back(pair, '=');
    }
}

/// Whether an option gives a value to a key: they stand on either side of its only equals sign.
pub open spec fn option_gives(option: Seq<char>, key: Seq<char>, value: Seq<char>) -> bool {
    option == key + seq!['='] + value && !key.contains('=') && !value.contains('=')
}

proof fn lemma_options_map(options: Seq<Seq<char>>, key: Seq<char>)
    ensures
        options_map(options).dom().contains(key) ==> exists|i: int|
            #![trigger options[i]]
            0 <= i < options.len() && option_gives(options[i], key, options_map(options)[key])
                && forall|j: int, other: Seq<char>|
                i < j < options.len() ==> !#[trigger] option_gives(options[j], key, other),
        forall|i: int, value: Seq<char>|
            0 <= i < options.len() && #[trigger] option_gives(options[i], key, value)
                ==> options_map(options).dom().contains(key),
    decreases options.len(),
{
    if options.len() > 0 {
        let before = options.drop_last();
        let last = options.last();
        let n = options.len() - 1;
        lemma_options_map(before, key);
        assert forall|value: Seq<char>| #[trigger] option_gives(
            last,
            key,
            value,
        ) <==> option_fields(last) == Some((key, value)) by {
            lemma_option_fields(last, key, value);
        }
        if options_map(options).dom().contains(key) {
            let value = options_map(options)[key];
            if option_gives(last, key, value) {
                assert(option_gives(options[n], key, value));
            } else {
                if option_fields(last) is Some {
                    let (k, v) = option_fields(last)->0;
                    assert(k != key) by {
                        if k == key {
                            assert(option_gives(last, key, v));
                        }
                    }
                }
                assert(options_map(before).dom().contains(key));
                assert(options_map(before)[key] == value);
                let i = choose|i: int|
                    #![trigger before[i]]
                    0 <= i < before.len() && option_gives(before[i], key, value) && forall|
                        j: int,
                        other: Seq<char>,
                    |
                        i < j < before.len() ==> !#[trigger] option_gives(before[j], key, other);
                assert(options[i] == before[i]);
                assert forall|j: int, other: Seq<char>| i < j < options.len() implies
                    !#[trigger] option_gives(options[j], key, other) by {
                    if j < n {
                        assert(before[j] == options[j]);
                        assert(!option_gives(before[j], key, other));
                    }
                }
            }
        }
        assert forall|i: int, value: Seq<char>|
            0 <= i < options.len() && #[trigger] option_gives(
                options[i],
                key,
                value,
            ) implies options_map(options).dom().contains(key) by {
            if i < n {
                assert(option_gives(before[i], key, value));
            } else {
                assert(option_gives(last, key, value));
            }
        }
    }
}

/// Reading options gives a key the value of the last option that has exactly that key on one side of
/// its only equals sign. Options of another form count for nothing.
pub proof fn law_last_option_gives_the_value(
    option_list: Vec<String>,
    options: TextMap<String>,
    key: Seq<char>,
)
    requires
        call_ensures(parse_options, (&option_list,), options),
    ensures
        options@.dom().contains(key) <==> exists|i: int, value: Seq<char>|
            0 <= i < option_list@.len() && #[trigger] option_gives(
                option_list@[i]@,
                key,
                value,
            ),
        options@.dom().contains(key) ==> exists|i: int|
            #![trigger option_list@[i]]
            0 <= i < option_list@.len() && option_gives(
                option_list@[i]@,
                key,
                options@[key]@,
            ) && forall|j: int, other: Seq<char>|
                i < j < option_list@.len() ==> !#[trigger] option_gives(
                    option_list@[j]@,
                    key,
                    other,
                ),
{
    let all = texts(option_list@);
    lemma_options_map(all, key);
    assert forall|i: int| 0 <= i < all.len() implies #[trigger] all[i] == option_list@[i]@ by {}
    if options@.dom().contains(key) {
        let i = choose|i: int|
            #![trigger all[i]]
            0 <= i < all.len() && option_gives(all[i], key, options_map(all)[key]) && forall|
                j: int,
                other: Seq<char>,
            |
                i < j < all.len() ==> !#[trigger] option_gives(all[j], key, other);
        assert(option_gives(option_list@[i]@, key, options@[key]@));
        assert forall|j: int, other: Seq<char>| i < j < option_list@.len() implies
            !#[trigger] option_gives(option_list@[j]@, key, other) by {
            assert(all[j] == option_list@[j]@);
            assert(!option_gives(all[j], key, other));
        }
    }
    if exists|i: int, value: Seq<char>|
        0 <= i < option_list@.len() && #[trigger] option_gives(option_list@[i]@, key, value) {
        let (i, value) = choose|i: int, value: Seq<char>|
            0 <= i < option_list@.len() && #[trigger] option_gives(
                option_list@[i]@,
                key,
                value,
            );
        assert(option_gives(all[i], key, value));
    }
}

/// What is said of a failed storage names the mount point, path or driver that the error holds, and gives
/// a reason from outside as it came.
pub proof fn law_storage_messages_name_the_storage(
    error: StorageError,
    message: String,
)
    requires
        call_ensures(StorageError::message, (&error,), message),
    ensures
        message@ == match error {
            StorageError::Outside(reason) => reason@,
            StorageError::WaitStorage { mount_point, reason } => "wait for sandbox storage "@
                + mount_point@ + ": "@ + reason@,
            StorageError::WaitGroup { mount_point, reason } => "wait for multi-layer sandbox storage "@
                + mount_point@ + ": "@ + reason@,
            StorageError::EmptyGroup => "multi-layer storage group is empty"@,
            StorageError::MixedOwnership =>
                "multi-layer storage group has mixed initialized and uninitialized ownership"@,
            StorageError::GroupChanged =>
                "multi-layer storage group changed after lifecycle ownership was claimed"@,
            StorageError::NoHandler(driver) => "Failed to find the storage handler "@ + driver@,
            StorageError::OwnershipLost(mount_point) => "storage initialization ownership was lost before installing device: "@
                + mount_point@,
            StorageError::InstallRefused(mount_point) => "failed to update device for storage: "@
                + mount_point@,
            StorageError::StillMounted(path) => "failed to umount mountpoint "@ + path@,
            StorageError::DirectoryNotEmpty => "directory is not empty when clean up storage"@,
            StorageError::NeitherDirectoryNorFile(path) => "storage path "@ + path@
                + " is neither directory nor file"@,
        },
{
}

} // verus!
