//! Strict declarations for turning a Kubernetes raw block device into guest-confidential storage.
//!
//! CSI remains responsible only for provisioning and publishing the raw device. The runtime
//! consumes this measured declaration and converts the matching device into a typed storage
//! request instead of exposing the raw device to the workload.

use vstd::prelude::*;
use vstd::utf8::encode_utf8;

use crate::path::{is_clean_absolute, is_clean_absolute_path};
use crate::text::{
    chars_of, has_prefix, list_contains, lists_text, quote, quoted, same_text, starts_with,
};
use crate::text_map::TextMap;

verus! {

pub const MAX_DECLARATION_BYTES: usize = 64 * 1024;

pub const MAX_VOLUMES: usize = 32;

pub const MAX_MOUNTS_PER_CONTAINER: usize = 32;

/// The fsGroup ownership behavior requested for a confidential filesystem.
#[derive(Clone, Copy, Debug, PartialEq, Eq, Structural)]
pub enum ConfidentialFSGroupChangePolicy {
    /// Always apply the requested group ownership.
    Always,
    /// Apply group ownership only when the root directory does not already match.
    OnRootMismatch,
}

/// The access that a confidential volume asks for.
#[derive(Clone, Copy, Debug, PartialEq, Eq, Structural)]
pub enum ConfidentialStorageAccess {
    /// Reading and writing.
    ReadWrite,
    /// Reading alone.
    ReadOnly,
}

/// Unique container-to-destination mappings for one confidential volume.
#[derive(Debug)]
pub struct ConfidentialVolumeMounts(pub TextMap<Vec<String>>);

/// A single measured confidential-volume declaration.
#[derive(Debug)]
pub struct ConfidentialVolumeDeclaration {
    /// Container-visible raw-device path supplied through Kubernetes `volumeDevices`.
    pub device_path: String,
    /// Immutable Trustee/KBS storage-manifest resource.
    pub manifest_uri: String,
    /// Requested storage access. Only read-write is currently supported.
    pub access: ConfidentialStorageAccess,
    /// Optional filesystem group to apply inside the guest.
    pub fs_group: Option<u32>,
    /// Optional filesystem group ownership behavior.
    pub fs_group_change_policy: Option<ConfidentialFSGroupChangePolicy>,
    /// Container names and their guest filesystem destinations.
    pub mounts: ConfidentialVolumeMounts,
}

/// The volumes of one annotation, each name declared once.
#[derive(Debug)]
pub struct ConfidentialVolumeDeclarations(pub TextMap<ConfidentialVolumeDeclaration>);

/// What a DNS label names.
#[derive(Clone, Copy, Debug, PartialEq, Eq, Structural)]
pub enum LabelKind {
    Volume,
    Container,
}

/// Why a declaration annotation is refused.
#[derive(Debug)]
pub enum DeclarationError {
    /// The annotation is empty or too long.
    Size,
    /// The annotation does not decode.
    Invalid(String),
    /// The annotation names no volume or too many.
    VolumeCount,
    /// A volume name occurs twice.
    DuplicateVolume,
    /// A container name occurs twice in one volume.
    DuplicateContainer,
    /// A name is not a DNS label.
    NotDnsLabel { kind: LabelKind, name: String },
    /// The manifest URI is refused.
    ManifestUri(String),
    /// Two volumes have the same manifest URI.
    DuplicateManifestUri(String),
    /// The volume asks for read-only access.
    ReadOnlyAccess { volume: String },
    /// The device path is not a clean absolute path beneath `/dev`.
    DevicePath(String),
    /// Two volumes have the same device path.
    DuplicateDevicePath(String),
    /// There is a change policy but no group.
    PolicyWithoutGroup { volume: String },
    /// The volume names no container.
    NoMounts { volume: String },
    /// A container has no destination or too many.
    DestinationCount { volume: String, container: String },
    /// A destination is not a clean non-root absolute path.
    Destination(String),
    /// A destination occurs twice for one container of a volume.
    RepeatedDestination { volume: String, container: String, destination: String },
    /// Two volumes have the same destination in one container.
    SharedDestination { container: String, destination: String },
}

impl DeclarationError {
    /// The text of the message for this error.
    pub open spec fn text(&self) -> Seq<char> {
        match self {
            DeclarationError::Size =>
                "confidential volume declaration must be between 1 and 65536 bytes"@,
            DeclarationError::Invalid(error) => "invalid confidential volume declaration: "@
                + error@,
            DeclarationError::VolumeCount =>
                "confidential volume declaration must contain between 1 and 32 volumes"@,
            DeclarationError::DuplicateVolume => "duplicate confidential volume declaration"@,
            DeclarationError::DuplicateContainer =>
                "duplicate confidential volume container declaration"@,
            DeclarationError::NotDnsLabel { kind: LabelKind::Volume, name } => "confidential volume name "@
                + quoted(name@) + " is not a DNS label"@,
            DeclarationError::NotDnsLabel { kind: LabelKind::Container, name } => "confidential container name "@
                + quoted(name@) + " is not a DNS label"@,
            DeclarationError::ManifestUri(reason) => reason@,
            DeclarationError::DuplicateManifestUri(uri) => "confidential manifest URI "@
                + quoted(uri@) + " is assigned to more than one volume"@,
            DeclarationError::ReadOnlyAccess { volume } => "confidential volume "@
                + quoted(volume@) + " requests unsupported readOnly access"@,
            DeclarationError::DevicePath(path) => "confidential device path "@ + quoted(path@)
                + " must be a clean absolute path beneath /dev"@,
            DeclarationError::DuplicateDevicePath(path) => "confidential device path "@
                + quoted(path@) + " is assigned to more than one volume"@,
            DeclarationError::PolicyWithoutGroup { volume } => "confidential volume "@
                + quoted(volume@) + " fsGroupChangePolicy requires fsGroup"@,
            DeclarationError::NoMounts { volume } => "confidential volume "@ + quoted(volume@)
                + " must name at least one container mount"@,
            DeclarationError::DestinationCount { volume, container } => "confidential volume "@
                + quoted(volume@) + " container "@ + quoted(container@)
                + " must contain between 1 and 32 mount destinations"@,
            DeclarationError::Destination(destination) => "confidential mount destination "@
                + quoted(destination@) + " must be a clean non-root absolute path"@,
            DeclarationError::RepeatedDestination { volume, container, destination } => "confidential volume "@
                + quoted(volume@) + " repeats mount destination "@ + quoted(destination@)
                + " for container "@ + quoted(container@),
            DeclarationError::SharedDestination { container, destination } => "confidential mount destination "@
                + quoted(destination@) + " for container "@ + quoted(container@)
                + " is assigned to more than one volume"@,
        }
    }

    /// The message for this error.
    pub fn message(&self) -> (message: String)
        ensures
            message@ == self.text(),
    {
        match self {
            DeclarationError::Size => {
                "confidential volume declaration must be between 1 and 65536 bytes".to_owned()
            },
            DeclarationError::Invalid(error) => {
                let mut text = "invalid confidential volume declaration: ".to_owned();
                text.append(error.as_str());
                text
            },
            DeclarationError::VolumeCount => {
                "confidential volume declaration must contain between 1 and 32 volumes".to_owned()
            },
            DeclarationError::DuplicateVolume => {
                "duplicate confidential volume declaration".to_owned()
            },
            DeclarationError::DuplicateContainer => {
                "duplicate confidential volume container declaration".to_owned()
            },
            DeclarationError::NotDnsLabel { kind: LabelKind::Volume, name } => {
                let mut text = "confidential volume name ".to_owned();
                text.append(quote(name.as_str()).as_str());
                text.append(" is not a DNS label");
                text
            },
            DeclarationError::NotDnsLabel { kind: LabelKind::Container, name } => {
                let mut text = "confidential container name ".to_owned();
                text.append(quote(name.as_str()).as_str());
                text.append(" is not a DNS label");
                text
            },
            DeclarationError::ManifestUri(reason) => reason.clone(),
            DeclarationError::DuplicateManifestUri(uri) => {
                let mut text = "confidential manifest URI ".to_owned();
                text.append(quote(uri.as_str()).as_str());
                text.append(" is assigned to more than one volume");
                text
            },
            DeclarationError::ReadOnlyAccess { volume } => {
                let mut text = "confidential volume ".to_owned();
                text.append(quote(volume.as_str()).as_str());
                text.append(" requests unsupported readOnly access");
                text
            },
            DeclarationError::DevicePath(path) => {
                let mut text = "confidential device path ".to_owned();
                text.append(quote(path.as_str()).as_str());
                text.append(" must be a clean absolute path beneath /dev");
                text
            },
            DeclarationError::DuplicateDevicePath(path) => {
                let mut text = "confidential device path ".to_owned();
                text.append(quote(path.as_str()).as_str());
                text.append(" is assigned to more than one volume");
                text
            },
            DeclarationError::PolicyWithoutGroup { volume } => {
                let mut text = "confidential volume ".to_owned();
                text.append(quote(volume.as_str()).as_str());
                text.append(" fsGroupChangePolicy requires fsGroup");
                text
            },
            DeclarationError::NoMounts { volume } => {
                let mut text = "confidential volume ".to_owned();
                text.append(quote(volume.as_str()).as_str());
                text.append(" must name at least one container mount");
                text
            },
            DeclarationError::DestinationCount { volume, container } => {
                let mut text = "confidential volume ".to_owned();
                text.append(quote(volume.as_str()).as_str());
                text.append(" container ");
                text.append(quote(container.as_str()).as_str());
                text.append(" must contain between 1 and 32 mount destinations");
                text
            },
            DeclarationError::Destination(destination) => {
                let mut text = "confidential mount destination ".to_owned();
                text.append(quote(destination.as_str()).as_str());
                text.append(" must be a clean non-root absolute path");
                text
            },
            DeclarationError::RepeatedDestination { volume, container, destination } => {
                let mut text = "confidential volume ".to_owned();
                text.append(quote(volume.as_str()).as_str());
                text.append(" repeats mount destination ");
                text.append(quote(destination.as_str()).as_str());
                text.append(" for container ");
                text.append(quote(container.as_str()).as_str());
                text
            },
            DeclarationError::SharedDestination { container, destination } => {
                let mut text = "confidential mount destination ".to_owned();
                text.append(quote(destination.as_str()).as_str());
                text.append(" for container ");
                text.append(quote(container.as_str()).as_str());
                text.append(" is assigned to more than one volume");
                text
            },
        }
    }
}

/// The problem that a check reports.
pub open spec fn as_problem(result: Result<(), DeclarationError>) -> Option<DeclarationError> {
    match result {
        Ok(_) => None,
        Err(problem) => Some(problem),
    }
}

/// Whether a name is a DNS label: 1 to 63 lower-case letters, digits and inner hyphens.
pub open spec fn is_dns_label(name: Seq<char>) -> bool {
    &&& 1 <= name.len() <= 63
    &&& forall|i: int| 0 <= i < name.len() ==> is_label_char(#[trigger] name[i])
    &&& name[0] != '-'
    &&& name.last() != '-'
}

/// The characters of a DNS label.
pub open spec fn is_label_char(c: char) -> bool {
    'a' <= c <= 'z' || '0' <= c <= '9' || c == '-'
}

/// Whether a path is a clean absolute path beneath `/dev`.
pub open spec fn is_device_path(path: Seq<char>) -> bool {
    has_prefix(path, "/dev/"@) && is_clean_absolute(path)
}

/// Whether a path is a clean absolute path other than the root.
pub open spec fn is_mount_destination(path: Seq<char>) -> bool {
    path != "/"@ && is_clean_absolute(path)
}

/// The destinations of one container of a declaration.
pub open spec fn destinations(
    declaration: ConfidentialVolumeDeclaration,
    container: int,
) -> Seq<String> {
    declaration.mounts.0.entries()[container].1@
}

/// Whether a declaration gives `container` the destination `destination`.
pub open spec fn mounts_at(
    declaration: ConfidentialVolumeDeclaration,
    container: Seq<char>,
    destination: Seq<char>,
) -> bool {
    exists|c: int|
        0 <= c < declaration.mounts.0.entries().len()
            && #[trigger] declaration.mounts.0.entries()[c].0@ == container && lists_text(
            destinations(declaration, c),
            destination,
        )
}

/// What is wrong with destination `d` of container `c` of volume `v`.
pub open spec fn destination_problem(
    volumes: Seq<(String, ConfidentialVolumeDeclaration)>,
    v: int,
    c: int,
    d: int,
) -> Option<DeclarationError> {
    let (volume, declaration) = volumes[v];
    let container = declaration.mounts.0.entries()[c].0;
    let list = destinations(declaration, c);
    let destination = list[d];
    if !is_mount_destination(destination@) {
        Some(DeclarationError::Destination(destination))
    } else if lists_text(list.take(d), destination@) {
        Some(DeclarationError::RepeatedDestination { volume, container, destination })
    } else if exists|u: int|
        0 <= u < v && mounts_at((#[trigger] volumes[u]).1, container@, destination@) {
        Some(DeclarationError::SharedDestination { container, destination })
    } else {
        None
    }
}

/// The first problem among the destinations of a container, from `d` on.
pub open spec fn destinations_problem(
    volumes: Seq<(String, ConfidentialVolumeDeclaration)>,
    v: int,
    c: int,
    d: int,
) -> Option<DeclarationError>
    decreases destinations(volumes[v].1, c).len() - d,
{
    if d >= destinations(volumes[v].1, c).len() {
        None
    } else {
        match destination_problem(volumes, v, c, d) {
            Some(problem) => Some(problem),
            None => destinations_problem(volumes, v, c, d + 1),
        }
    }
}

/// What is wrong with container `c` of volume `v`.
pub open spec fn container_problem(
    volumes: Seq<(String, ConfidentialVolumeDeclaration)>,
    v: int,
    c: int,
) -> Option<DeclarationError> {
    let (volume, declaration) = volumes[v];
    let container = declaration.mounts.0.entries()[c].0;
    let count = destinations(declaration, c).len();
    if !is_dns_label(container@) {
        Some(DeclarationError::NotDnsLabel { kind: LabelKind::Container, name: container })
    } else if count == 0 || count > MAX_MOUNTS_PER_CONTAINER {
        Some(DeclarationError::DestinationCount { volume, container })
    } else {
        destinations_problem(volumes, v, c, 0)
    }
}

/// The first problem among the containers of volume `v`, from `c` on.
pub open spec fn containers_problem(
    volumes: Seq<(String, ConfidentialVolumeDeclaration)>,
    v: int,
    c: int,
) -> Option<DeclarationError>
    decreases volumes[v].1.mounts.0.entries().len() - c,
{
    if c >= volumes[v].1.mounts.0.entries().len() {
        None
    } else {
        match container_problem(volumes, v, c) {
            Some(problem) => Some(problem),
            None => containers_problem(volumes, v, c + 1),
        }
    }
}

/// Whether a volume before `v` has the manifest URI of `v`.
pub open spec fn manifest_uri_taken(
    volumes: Seq<(String, ConfidentialVolumeDeclaration)>,
    v: int,
) -> bool {
    exists|u: int|
        0 <= u < v && (#[trigger] volumes[u]).1.manifest_uri@ == volumes[v].1.manifest_uri@
}

/// Whether a volume before `v` has the device path of `v`.
pub open spec fn device_path_taken(
    volumes: Seq<(String, ConfidentialVolumeDeclaration)>,
    v: int,
) -> bool {
    exists|u: int|
        0 <= u < v && (#[trigger] volumes[u]).1.device_path@ == volumes[v].1.device_path@
}

/// What is wrong with volume `v`. `refused` holds the manifest URIs that the manifest policy
/// refuses, each with its reason.
pub open spec fn volume_problem(
    volumes: Seq<(String, ConfidentialVolumeDeclaration)>,
    refused: Map<Seq<char>, String>,
    v: int,
) -> Option<DeclarationError> {
    let (volume, declaration) = volumes[v];
    if !is_dns_label(volume@) {
        Some(DeclarationError::NotDnsLabel { kind: LabelKind::Volume, name: volume })
    } else if refused.dom().contains(declaration.manifest_uri@) {
        Some(DeclarationError::ManifestUri(refused[declaration.manifest_uri@]))
    } else if manifest_uri_taken(volumes, v) {
        Some(DeclarationError::DuplicateManifestUri(declaration.manifest_uri))
    } else if declaration.access != ConfidentialStorageAccess::ReadWrite {
        Some(DeclarationError::ReadOnlyAccess { volume })
    } else if !is_device_path(declaration.device_path@) {
        Some(DeclarationError::DevicePath(declaration.device_path))
    } else if device_path_taken(volumes, v) {
        Some(DeclarationError::DuplicateDevicePath(declaration.device_path))
    } else if declaration.fs_group is None && declaration.fs_group_change_policy is Some {
        Some(DeclarationError::PolicyWithoutGroup { volume })
    } else if declaration.mounts.0.entries().len() == 0 {
        Some(DeclarationError::NoMounts { volume })
    } else {
        containers_problem(volumes, v, 0)
    }
}

/// The first problem among the volumes, from `v` on.
pub open spec fn volumes_problem(
    volumes: Seq<(String, ConfidentialVolumeDeclaration)>,
    refused: Map<Seq<char>, String>,
    v: int,
) -> Option<DeclarationError>
    decreases volumes.len() - v,
{
    if v >= volumes.len() {
        None
    } else {
        match volume_problem(volumes, refused, v) {
            Some(problem) => Some(problem),
            None => volumes_problem(volumes, refused, v + 1),
        }
    }
}

/// What is wrong with an annotation that reads `raw` and decodes to `decoded`.
pub open spec fn annotation_problem(
    raw: Seq<char>,
    decoded: Result<ConfidentialVolumeDeclarations, DeclarationError>,
    refused: Map<Seq<char>, String>,
) -> Option<DeclarationError> {
    if !has_accepted_size(raw) {
        Some(DeclarationError::Size)
    } else {
        match decoded {
            Err(error) => Some(error),
            Ok(declarations) => {
                let volumes = declarations.0.entries();
                if volumes.len() == 0 || volumes.len() > MAX_VOLUMES {
                    Some(DeclarationError::VolumeCount)
                } else {
                    volumes_problem(volumes, refused, 0)
                }
            },
        }
    }
}

impl ConfidentialVolumeMounts {
    /// Declares the destinations of a container, unless the container is declared already.
    pub fn declare(&mut self, container: String, list: Vec<String>) -> (result: Result<
        (),
        DeclarationError,
    >)
        ensures
            result is Err <==> old(self).0@.dom().contains(container@),
            result matches Err(error) ==> error is DuplicateContainer,
            final(self).0@ == old(self).0@.insert(container@, list),
    {
        match self.0.insert(container, list) {
            Some(_) => Err(DeclarationError::DuplicateContainer),
            None => Ok(()),
        }
    }
}

impl ConfidentialVolumeDeclarations {
    /// Declares a volume, unless its name is declared already.
    pub fn declare(&mut self, volume: String, declaration: ConfidentialVolumeDeclaration) -> (result:
        Result<(), DeclarationError>)
        ensures
            result is Err <==> old(self).0@.dom().contains(volume@),
            result matches Err(error) ==> error is DuplicateVolume,
            final(self).0@ == old(self).0@.insert(volume@, declaration),
    {
        match self.0.insert(volume, declaration) {
            Some(_) => Err(DeclarationError::DuplicateVolume),
            None => Ok(()),
        }
    }
}

/// Checks that a name is a DNS label.
pub fn validate_dns_label(kind: LabelKind, value: &String) -> (result: Result<(), DeclarationError>)
    ensures
        result == if is_dns_label(value@) {
            Ok::<(), DeclarationError>(())
        } else {
            Err(DeclarationError::NotDnsLabel { kind, name: *value })
        },
{
    if is_label(value.as_str()) {
        Ok(())
    } else {
        Err(DeclarationError::NotDnsLabel { kind, name: value.clone() })
    }
}

fn is_label(value: &str) -> (label: bool)
    ensures
        label == is_dns_label(value@),
{
    let chars = chars_of(value);
    if chars.len() == 0 || chars.len() > 63 || chars[0] == '-' || chars[chars.len() - 1] == '-' {
        return false;
    }
    let mut i: usize = 0;
    while i < chars.len()
        invariant
            chars@ == value@,
            i <= chars.len(),
            forall|j: int| 0 <= j < i ==> is_label_char(#[trigger] value@[j]),
        decreases chars.len() - i,
    {
        let c = chars[i];
        let accepted = ('a' <= c && c <= 'z') || ('0' <= c && c <= '9') || c == '-';
        if !accepted {
            assert(!is_label_char(value@[i as int]));
            return false;
        }
        i = i + 1;
    }
    true
}

/// Checks that a path is a clean absolute path beneath `/dev`.
pub fn validate_device_path(value: &String) -> (result: Result<(), DeclarationError>)
    ensures
        result == if is_device_path(value@) {
            Ok::<(), DeclarationError>(())
        } else {
            Err(DeclarationError::DevicePath(*value))
        },
{
    if !starts_with(value.as_str(), "/dev/") || !is_clean_absolute_path(value.as_str()) {
        Err(DeclarationError::DevicePath(value.clone()))
    } else {
        Ok(())
    }
}

/// Checks that a path is a clean absolute path other than the root.
pub fn validate_mount_destination(value: &String) -> (result: Result<(), DeclarationError>)
    ensures
        result == if is_mount_destination(value@) {
            Ok::<(), DeclarationError>(())
        } else {
            Err(DeclarationError::Destination(*value))
        },
{
    if same_text(value.as_str(), "/") || !is_clean_absolute_path(value.as_str()) {
        Err(DeclarationError::Destination(value.clone()))
    } else {
        Ok(())
    }
}

/// Whether a declaration gives `container` the destination `destination`.
fn gives_destination(
    declaration: &ConfidentialVolumeDeclaration,
    container: &str,
    destination: &str,
) -> (found: bool)
    ensures
        found == mounts_at(*declaration, container@, destination@),
{
    let mounts = &declaration.mounts.0;
    let mut c: usize = 0;
    while c < mounts.len()
        invariant
            mounts == &declaration.mounts.0,
            c <= mounts.entries().len(),
            forall|b: int|
                0 <= b < c && #[trigger] mounts.entries()[b].0@ == container@ ==> !lists_text(
                    destinations(*declaration, b),
                    destination@,
                ),
        decreases mounts.entries().len() - c,
    {
        if same_text(mounts.key_at(c).as_str(), container) && list_contains(
            mounts.value_at(c),
            destination,
        ) {
            assert(mounts.entries()[c as int].0@ == container@);
            return true;
        }
        c = c + 1;
    }
    false
}

/// Checks one destination.
#[verifier::loop_isolation(false)]
fn check_destination(
    volumes: &TextMap<ConfidentialVolumeDeclaration>,
    v: usize,
    c: usize,
    d: usize,
) -> (result: Result<(), DeclarationError>)
    requires
        v < volumes.entries().len(),
        c < volumes.entries()[v as int].1.mounts.0.entries().len(),
        d < destinations(volumes.entries()[v as int].1, c as int).len(),
    ensures
        as_problem(result) == destination_problem(volumes.entries(), v as int, c as int, d as int),
{
    let declaration = volumes.value_at(v);
    let container = declaration.mounts.0.key_at(c);
    let list = declaration.mounts.0.value_at(c);
    let destination = &list[d];
    validate_mount_destination(destination)?;
    let mut e: usize = 0;
    while e < d
        invariant
            e <= d < list.len(),
            forall|i: int| 0 <= i < e ==> #[trigger] list@[i]@ != destination@,
        decreases d - e,
    {
        if same_text(list[e].as_str(), destination.as_str()) {
            assert(list@.take(d as int)[e as int]@ == destination@);
            return Err(
                DeclarationError::RepeatedDestination {
                    volume: volumes.key_at(v).clone(),
                    container: container.clone(),
                    destination: destination.clone(),
                },
            );
        }
        e = e + 1;
    }
    assert(!lists_text(list@.take(d as int), destination@));
    let mut u: usize = 0;
    while u < v
        invariant
            u <= v < volumes.entries().len(),
            forall|i: int|
                0 <= i < u ==> !mounts_at(
                    (#[trigger] volumes.entries()[i]).1,
                    container@,
                    destination@,
                ),
        decreases v - u,
    {
        if gives_destination(volumes.value_at(u), container.as_str(), destination.as_str()) {
            assert(mounts_at(volumes.entries()[u as int].1, container@, destination@));
            return Err(
                DeclarationError::SharedDestination {
                    container: container.clone(),
                    destination: destination.clone(),
                },
            );
        }
        u = u + 1;
    }
    Ok(())
}

/// Checks one container of a volume.
fn check_container(volumes: &TextMap<ConfidentialVolumeDeclaration>, v: usize, c: usize) -> (result:
    Result<(), DeclarationError>)
    requires
        v < volumes.entries().len(),
        c < volumes.entries()[v as int].1.mounts.0.entries().len(),
    ensures
        as_problem(result) == container_problem(volumes.entries(), v as int, c as int),
{
    let declaration = volumes.value_at(v);
    let container = declaration.mounts.0.key_at(c);
    let list = declaration.mounts.0.value_at(c);
    validate_dns_label(LabelKind::Container, container)?;
    if list.len() == 0 || list.len() > MAX_MOUNTS_PER_CONTAINER {
        return Err(
            DeclarationError::DestinationCount {
                volume: volumes.key_at(v).clone(),
                container: container.clone(),
            },
        );
    }
    let mut d: usize = 0;
    while d < list.len()
        invariant
            v < volumes.entries().len(),
            c < volumes.entries()[v as int].1.mounts.0.entries().len(),
            list@ == destinations(volumes.entries()[v as int].1, c as int),
            d <= list.len(),
            container_problem(volumes.entries(), v as int, c as int) == destinations_problem(
                volumes.entries(),
                v as int,
                c as int,
                d as int,
            ),
        decreases list.len() - d,
    {
        check_destination(volumes, v, c, d)?;
        d = d + 1;
    }
    Ok(())
}

/// Checks one volume.
#[verifier::loop_isolation(false)]
fn check_volume(
    volumes: &TextMap<ConfidentialVolumeDeclaration>,
    refused: &TextMap<String>,
    v: usize,
) -> (result: Result<(), DeclarationError>)
    requires
        v < volumes.entries().len(),
    ensures
        as_problem(result) == volume_problem(volumes.entries(), refused@, v as int),
{
    let volume = volumes.key_at(v);
    let declaration = volumes.value_at(v);
    validate_dns_label(LabelKind::Volume, volume)?;
    if let Some(reason) = refused.get(declaration.manifest_uri.as_str()) {
        return Err(DeclarationError::ManifestUri(reason.clone()));
    }
    let mut u: usize = 0;
    while u < v
        invariant
            u <= v < volumes.entries().len(),
            *declaration == volumes.entries()[v as int].1,
            forall|i: int|
                0 <= i < u ==> (#[trigger] volumes.entries()[i]).1.manifest_uri@
                    != declaration.manifest_uri@,
        decreases v - u,
    {
        if same_text(
            volumes.value_at(u).manifest_uri.as_str(),
            declaration.manifest_uri.as_str(),
        ) {
            assert(volumes.entries()[u as int].1.manifest_uri@ == declaration.manifest_uri@);
            return Err(DeclarationError::DuplicateManifestUri(declaration.manifest_uri.clone()));
        }
        u = u + 1;
    }
    assert(!manifest_uri_taken(volumes.entries(), v as int));
    if declaration.access != ConfidentialStorageAccess::ReadWrite {
        return Err(DeclarationError::ReadOnlyAccess { volume: volume.clone() });
    }
    validate_device_path(&declaration.device_path)?;
    let mut w: usize = 0;
    while w < v
        invariant
            w <= v < volumes.entries().len(),
            *declaration == volumes.entries()[v as int].1,
            forall|i: int|
                0 <= i < w ==> (#[trigger] volumes.entries()[i]).1.device_path@
                    != declaration.device_path@,
        decreases v - w,
    {
        if same_text(volumes.value_at(w).device_path.as_str(), declaration.device_path.as_str()) {
            assert(volumes.entries()[w as int].1.device_path@ == declaration.device_path@);
            return Err(DeclarationError::DuplicateDevicePath(declaration.device_path.clone()));
        }
        w = w + 1;
    }
    assert(!device_path_taken(volumes.entries(), v as int));
    if declaration.fs_group.is_none() && declaration.fs_group_change_policy.is_some() {
        return Err(DeclarationError::PolicyWithoutGroup { volume: volume.clone() });
    }
    if declaration.mounts.0.is_empty() {
        return Err(DeclarationError::NoMounts { volume: volume.clone() });
    }
    let mut c: usize = 0;
    while c < declaration.mounts.0.len()
        invariant
            v < volumes.entries().len(),
            *declaration == volumes.entries()[v as int].1,
            c <= declaration.mounts.0.entries().len(),
            volume_problem(volumes.entries(), refused@, v as int) == containers_problem(
                volumes.entries(),
                v as int,
                c as int,
            ),
        decreases declaration.mounts.0.entries().len() - c,
    {
        check_container(volumes, v, c)?;
        c = c + 1;
    }
    Ok(())
}

/// Whether an annotation has a size that is accepted.
pub open spec fn has_accepted_size(raw: Seq<char>) -> bool {
    0 < raw.len() && encode_utf8(raw).len() <= MAX_DECLARATION_BYTES
}

/// Checks the size of an annotation, which is to be done before it is decoded.
pub fn validate_declaration_size(raw: &str) -> (result: Result<(), DeclarationError>)
    ensures
        result == if has_accepted_size(raw@) {
            Ok::<(), DeclarationError>(())
        } else {
            Err(DeclarationError::Size)
        },
{
    if raw.is_empty() || raw.as_bytes().len() > MAX_DECLARATION_BYTES {
        Err(DeclarationError::Size)
    } else {
        Ok(())
    }
}

/// Validates a complete confidential raw-block declaration annotation.
///
/// `decoded` is what the JSON text `raw` decodes to. `refused` holds the manifest URIs that the
/// manifest policy refuses, each with its reason.
pub fn parse_confidential_volume_declarations(
    raw: &str,
    decoded: Result<ConfidentialVolumeDeclarations, DeclarationError>,
    refused: &TextMap<String>,
) -> (result: Result<ConfidentialVolumeDeclarations, DeclarationError>)
    ensures
        match annotation_problem(raw@, decoded, refused@) {
            Some(problem) => result == Err::<ConfidentialVolumeDeclarations, _>(problem),
            None => decoded is Ok && result == decoded,
        },
{
    validate_declaration_size(raw)?;
    let declarations = decoded?;
    let volumes = &declarations.0;
    if volumes.is_empty() || volumes.len() > MAX_VOLUMES {
        return Err(DeclarationError::VolumeCount);
    }
    let mut v: usize = 0;
    while v < volumes.len()
        invariant
            volumes == &declarations.0,
            decoded == Ok::<_, DeclarationError>(declarations),
            v <= volumes.entries().len(),
            annotation_problem(raw@, decoded, refused@) == volumes_problem(
                volumes.entries(),
                refused@,
                v as int,
            ),
        decreases volumes.entries().len() - v,
    {
        check_volume(volumes, refused, v)?;
        v = v + 1;
    }
    Ok(declarations)
}

/// Whether destination `d` of container `c` of volume `v` is usable, is the only one of its kind
/// in its list, and is used by no earlier volume in the same container.
pub open spec fn destination_accepted(
    volumes: Seq<(String, ConfidentialVolumeDeclaration)>,
    v: int,
    c: int,
    d: int,
) -> bool {
    let list = destinations(volumes[v].1, c);
    let container = volumes[v].1.mounts.0.entries()[c].0@;
    &&& is_mount_destination(list[d]@)
    &&& forall|e: int| 0 <= e < d ==> (#[trigger] list[e])@ != list[d]@
    &&& forall|u: int| 0 <= u < v ==> !mounts_at((#[trigger] volumes[u]).1, container, list[d]@)
}

/// Whether container `c` of volume `v` is a DNS label with an accepted number of accepted
/// destinations.
pub open spec fn container_accepted(
    volumes: Seq<(String, ConfidentialVolumeDeclaration)>,
    v: int,
    c: int,
) -> bool {
    let list = destinations(volumes[v].1, c);
    &&& is_dns_label(volumes[v].1.mounts.0.entries()[c].0@)
    &&& 1 <= list.len() <= MAX_MOUNTS_PER_CONTAINER
    &&& forall|d: int| 0 <= d < list.len() ==> #[trigger] destination_accepted(volumes, v, c, d)
}

/// Whether volume `v` meets every rule on its own and against the volumes before it.
pub open spec fn volume_accepted(
    volumes: Seq<(String, ConfidentialVolumeDeclaration)>,
    refused: Map<Seq<char>, String>,
    v: int,
) -> bool {
    let declaration = volumes[v].1;
    &&& is_dns_label(volumes[v].0@)
    &&& !refused.dom().contains(declaration.manifest_uri@)
    &&& declaration.access == ConfidentialStorageAccess::ReadWrite
    &&& is_device_path(declaration.device_path@)
    &&& declaration.fs_group_change_policy is Some ==> declaration.fs_group is Some
    &&& forall|u: int|
        0 <= u < v ==> (#[trigger] volumes[u]).1.manifest_uri@ != declaration.manifest_uri@
            && volumes[u].1.device_path@ != declaration.device_path@
    &&& declaration.mounts.0.entries().len() > 0
    &&& forall|c: int|
        0 <= c < declaration.mounts.0.entries().len() ==> #[trigger] container_accepted(
            volumes,
            v,
            c,
        )
}

proof fn lemma_destinations(
    volumes: Seq<(String, ConfidentialVolumeDeclaration)>,
    v: int,
    c: int,
    from: int,
)
    ensures
        destinations_problem(volumes, v, c, from) is None <==> forall|d: int|
            from <= d < destinations(volumes[v].1, c).len() ==> #[trigger] destination_problem(
                volumes,
                v,
                c,
                d,
            ) is None,
    decreases destinations(volumes[v].1, c).len() - from,
{
    if from < destinations(volumes[v].1, c).len() {
        lemma_destinations(volumes, v, c, from + 1);
        if destinations_problem(volumes, v, c, from) is None {
            assert forall|d: int| from <= d < destinations(volumes[v].1, c).len() implies (
            #[trigger] destination_problem(volumes, v, c, d)) is None by {
                if d > from {
                    assert(from + 1 <= d);
                }
            }
        }
    }
}

proof fn lemma_containers(
    volumes: Seq<(String, ConfidentialVolumeDeclaration)>,
    v: int,
    from: int,
)
    ensures
        containers_problem(volumes, v, from) is None <==> forall|c: int|
            from <= c < volumes[v].1.mounts.0.entries().len() ==> #[trigger] container_problem(
                volumes,
                v,
                c,
            ) is None,
    decreases volumes[v].1.mounts.0.entries().len() - from,
{
    if from < volumes[v].1.mounts.0.entries().len() {
        lemma_containers(volumes, v, from + 1);
        if containers_problem(volumes, v, from) is None {
            assert forall|c: int| from <= c < volumes[v].1.mounts.0.entries().len() implies (
            #[trigger] container_problem(volumes, v, c)) is None by {
                if c > from {
                    assert(from + 1 <= c);
                }
            }
        }
    }
}

proof fn lemma_volumes(
    volumes: Seq<(String, ConfidentialVolumeDeclaration)>,
    refused: Map<Seq<char>, String>,
    from: int,
)
    ensures
        volumes_problem(volumes, refused, from) is None <==> forall|v: int|
            from <= v < volumes.len() ==> #[trigger] volume_problem(volumes, refused, v) is None,
    decreases volumes.len() - from,
{
    if from < volumes.len() {
        lemma_volumes(volumes, refused, from + 1);
        if volumes_problem(volumes, refused, from) is None {
            assert forall|v: int| from <= v < volumes.len() implies (#[trigger] volume_problem(
                volumes,
                refused,
                v,
            )) is None by {
                if v > from {
                    assert(from + 1 <= v);
                }
            }
        }
    }
}

proof fn lemma_container_accepted(
    volumes: Seq<(String, ConfidentialVolumeDeclaration)>,
    v: int,
    c: int,
)
    ensures
        container_problem(volumes, v, c) is None <==> container_accepted(volumes, v, c),
{
    lemma_destinations(volumes, v, c, 0);
    let list = destinations(volumes[v].1, c);
    assert forall|d: int| 0 <= d < list.len() implies ((#[trigger] destination_problem(
        volumes,
        v,
        c,
        d,
    )) is None <==> destination_accepted(volumes, v, c, d)) by {
        if exists|e: int| 0 <= e < d && (#[trigger] list[e])@ == list[d]@ {
            let e = choose|e: int| 0 <= e < d && (#[trigger] list[e])@ == list[d]@;
            assert(list.take(d)[e]@ == list[d]@);
        }
        if lists_text(list.take(d), list[d]@) {
            let e = choose|e: int| 0 <= e < d && (#[trigger] list.take(d)[e])@ == list[d]@;
            assert(list[e]@ == list[d]@);
        }
    }
    if container_accepted(volumes, v, c) {
        assert forall|d: int| 0 <= d < list.len() implies (#[trigger] destination_problem(
            volumes,
            v,
            c,
            d,
        )) is None by {
            assert(destination_accepted(volumes, v, c, d));
        }
    }
    if container_problem(volumes, v, c) is None {
        assert forall|d: int| 0 <= d < list.len() implies #[trigger] destination_accepted(
            volumes,
            v,
            c,
            d,
        ) by {
            assert(destination_problem(volumes, v, c, d) is None);
        }
    }
}

proof fn lemma_volume_accepted(
    volumes: Seq<(String, ConfidentialVolumeDeclaration)>,
    refused: Map<Seq<char>, String>,
    v: int,
)
    ensures
        volume_problem(volumes, refused, v) is None <==> volume_accepted(volumes, refused, v),
{
    lemma_containers(volumes, v, 0);
    let count = volumes[v].1.mounts.0.entries().len();
    assert forall|c: int| 0 <= c < count implies ((#[trigger] container_problem(volumes, v, c)) is None
        <==> container_accepted(volumes, v, c)) by {
        lemma_container_accepted(volumes, v, c);
    }
    if volume_problem(volumes, refused, v) is None {
        assert forall|c: int| 0 <= c < count implies #[trigger] container_accepted(
            volumes,
            v,
            c,
        ) by {
            assert(container_problem(volumes, v, c) is None);
        }
    }
    if volume_accepted(volumes, refused, v) {
        assert forall|c: int| 0 <= c < count implies (#[trigger] container_problem(
            volumes,
            v,
            c,
        )) is None by {
            assert(container_accepted(volumes, v, c));
        }
    }
}

/// An annotation is accepted exactly when its size and its number of volumes are in bounds, it
/// decodes, and every volume meets every rule.
pub proof fn law_annotation_accepted(
    raw: Seq<char>,
    decoded: Result<ConfidentialVolumeDeclarations, DeclarationError>,
    refused: Map<Seq<char>, String>,
)
    ensures
        annotation_problem(raw, decoded, refused) is None <==> {
            &&& raw.len() > 0
            &&& encode_utf8(raw).len() <= MAX_DECLARATION_BYTES
            &&& decoded matches Ok(declarations)
            &&& 1 <= declarations.0.entries().len() <= MAX_VOLUMES
            &&& forall|v: int|
                0 <= v < declarations.0.entries().len() ==> #[trigger] volume_accepted(
                    declarations.0.entries(),
                    refused,
                    v,
                )
        },
{
    if let Ok(declarations) = decoded {
        let volumes = declarations.0.entries();
        lemma_volumes(volumes, refused, 0);
        assert forall|v: int| 0 <= v < volumes.len() implies ((#[trigger] volume_problem(
            volumes,
            refused,
            v,
        )) is None <==> volume_accepted(volumes, refused, v)) by {
            lemma_volume_accepted(volumes, refused, v);
        }
        if volumes_problem(volumes, refused, 0) is None {
            assert forall|v: int| 0 <= v < volumes.len() implies #[trigger] volume_accepted(
                volumes,
                refused,
                v,
            ) by {
                assert(volume_problem(volumes, refused, v) is None);
            }
        }
        if forall|v: int| 0 <= v < volumes.len() ==> #[trigger] volume_accepted(volumes, refused, v) {
            assert forall|v: int| 0 <= v < volumes.len() implies (#[trigger] volume_problem(
                volumes,
                refused,
                v,
            )) is None by {
                assert(volume_accepted(volumes, refused, v));
            }
        }
    }
}

/// Accepted volumes never collide: no two have the same manifest URI or the same device path, and
/// no destination of a container belongs to two of them.
pub proof fn law_accepted_volumes_do_not_collide(
    raw: Seq<char>,
    declarations: ConfidentialVolumeDeclarations,
    refused: Map<Seq<char>, String>,
    u: int,
    v: int,
    container: Seq<char>,
    destination: Seq<char>,
)
    requires
        annotation_problem(raw, Ok(declarations), refused) is None,
        0 <= u < v < declarations.0.entries().len(),
    ensures
        declarations.0.entries()[u].1.manifest_uri@ != declarations.0.entries()[v].1.manifest_uri@,
        declarations.0.entries()[u].1.device_path@ != declarations.0.entries()[v].1.device_path@,
        !(mounts_at(declarations.0.entries()[u].1, container, destination) && mounts_at(
            declarations.0.entries()[v].1,
            container,
            destination,
        )),
{
    let volumes = declarations.0.entries();
    law_annotation_accepted(raw, Ok(declarations), refused);
    assert(volume_accepted(volumes, refused, v));
    if mounts_at(volumes[u].1, container, destination) && mounts_at(
        volumes[v].1,
        container,
        destination,
    ) {
        let c = choose|c: int|
            0 <= c < volumes[v].1.mounts.0.entries().len()
                && #[trigger] volumes[v].1.mounts.0.entries()[c].0@ == container && lists_text(
                destinations(volumes[v].1, c),
                destination,
            );
        let list = destinations(volumes[v].1, c);
        let d = choose|d: int| 0 <= d < list.len() && #[trigger] list[d]@ == destination;
        assert(container_accepted(volumes, v, c));
        assert(destination_accepted(volumes, v, c, d));
    }
}

/// Whether a name is written as a DNS label: one to 63 lower-case letters, digits and hyphens,
/// without a hyphen at either end.
pub open spec fn is_written_as_a_label(name: Seq<char>) -> bool {
    &&& 1 <= name.len() <= 63
    &&& forall|i: int|
        0 <= i < name.len() ==> ('a' <= #[trigger] name[i] <= 'z') || ('0' <= name[i] <= '9') || (
        name[i] == '-' && 0 < i < name.len() - 1)
}

proof fn lemma_labels(name: Seq<char>)
    ensures
        is_dns_label(name) <==> is_written_as_a_label(name),
{
    if is_dns_label(name) {
        assert forall|i: int| 0 <= i < name.len() implies ('a' <= #[trigger] name[i] <= 'z') || (
        '0' <= name[i] <= '9') || (name[i] == '-' && 0 < i < name.len() - 1) by {
            assert(is_label_char(name[i]));
        }
    }
    if is_written_as_a_label(name) {
        assert forall|i: int| 0 <= i < name.len() implies is_label_char(#[trigger] name[i]) by {}
        assert(name[0] != '-');
        assert(name[name.len() - 1] != '-');
    }
}

/// What each check of a declaration accepts: DNS labels, clean absolute paths beneath `/dev`, and
/// clean absolute paths other than the root. What is refused is named.
pub proof fn law_names_and_paths_are_checked(
    kind: LabelKind,
    value: String,
    label: Result<(), DeclarationError>,
    device: Result<(), DeclarationError>,
    destination: Result<(), DeclarationError>,
)
    requires
        call_ensures(validate_dns_label, (kind, &value), label),
        call_ensures(validate_device_path, (&value,), device),
        call_ensures(validate_mount_destination, (&value,), destination),
    ensures
        label is Ok <==> is_written_as_a_label(value@),
        label is Err ==> label->Err_0 == (DeclarationError::NotDnsLabel { kind, name: value }),
        device is Ok <==> has_prefix(value@, "/dev/"@) && is_clean_absolute(value@),
        device is Err ==> device->Err_0 == DeclarationError::DevicePath(value),
        destination is Ok <==> value@ != "/"@ && is_clean_absolute(value@),
        destination is Err ==> destination->Err_0 == DeclarationError::Destination(value),
        device is Ok ==> destination is Ok,
{
    lemma_labels(value@);
    reveal_strlit("/dev/");
    reveal_strlit("/");
    if has_prefix(value@, "/dev/"@) {
        assert("/dev/"@.len() == 5);
        assert("/"@.len() == 1);
    }
}

/// Whether a volume is declared as it should be, seen by itself: it and its containers are named
/// with DNS labels, its manifest is not refused, it asks for reading and writing, its device lies
/// beneath `/dev`, it has a group where it says when to change it, and it names containers, each
/// with one to 32 destinations that are clean, not the root, and all different.
pub open spec fn is_declared_in_order(
    name: String,
    declaration: ConfidentialVolumeDeclaration,
    refused: Map<Seq<char>, String>,
) -> bool {
    let containers = declaration.mounts.0.entries();
    &&& is_written_as_a_label(name@)
    &&& !refused.dom().contains(declaration.manifest_uri@)
    &&& declaration.access is ReadWrite
    &&& has_prefix(declaration.device_path@, "/dev/"@)
    &&& is_clean_absolute(declaration.device_path@)
    &&& declaration.fs_group_change_policy is Some ==> declaration.fs_group is Some
    &&& containers.len() > 0
    &&& forall|c: int|
        #![trigger containers[c]]
        0 <= c < containers.len() ==> {
            &&& is_written_as_a_label(containers[c].0@)
            &&& 1 <= containers[c].1@.len() <= 32
            &&& forall|d: int|
                0 <= d < containers[c].1@.len() ==> (#[trigger] containers[c].1@[d])@ != "/"@
                    && is_clean_absolute(containers[c].1@[d]@)
            &&& forall|d: int, e: int|
                0 <= d < e < containers[c].1@.len() ==> (#[trigger] containers[c].1@[d])@ != (
                #[trigger] containers[c].1@[e])@
        }
}

/// Whether two volumes can be declared side by side: they have different manifests and different
/// devices, and no destination in common in any container.
pub open spec fn can_stand_together(
    left: ConfidentialVolumeDeclaration,
    right: ConfidentialVolumeDeclaration,
) -> bool {
    let lefts = left.mounts.0.entries();
    let rights = right.mounts.0.entries();
    &&& left.manifest_uri@ != right.manifest_uri@
    &&& left.device_path@ != right.device_path@
    &&& forall|b: int, c: int, d: int, e: int|
        #![trigger lefts[b].1@[d], rights[c].1@[e]]
        0 <= b < lefts.len() && 0 <= c < rights.len() && lefts[b].0@ == rights[c].0@ && 0 <= d
            < lefts[b].1@.len() && 0 <= e < rights[c].1@.len() ==> lefts[b].1@[d]@
            != rights[c].1@[e]@
}

proof fn lemma_volume_is_in_order(
    volumes: Seq<(String, ConfidentialVolumeDeclaration)>,
    refused: Map<Seq<char>, String>,
    v: int,
)
    requires
        0 <= v < volumes.len(),
    ensures
        volume_accepted(volumes, refused, v) <==> is_declared_in_order(
            volumes[v].0,
            volumes[v].1,
            refused,
        ) && forall|u: int|
            0 <= u < v ==> can_stand_together((#[trigger] volumes[u]).1, volumes[v].1),
{
    let declaration = volumes[v].1;
    let containers = declaration.mounts.0.entries();
    lemma_labels(volumes[v].0@);
    if volume_accepted(volumes, refused, v) {
        assert forall|c: int| #![trigger containers[c]] 0 <= c < containers.len() implies {
            &&& is_written_as_a_label(containers[c].0@)
            &&& 1 <= containers[c].1@.len() <= 32
            &&& forall|d: int|
                0 <= d < containers[c].1@.len() ==> (#[trigger] containers[c].1@[d])@ != "/"@
                    && is_clean_absolute(containers[c].1@[d]@)
            &&& forall|d: int, e: int|
                0 <= d < e < containers[c].1@.len() ==> (#[trigger] containers[c].1@[d])@ != (
                #[trigger] containers[c].1@[e])@
        } by {
            assert(container_accepted(volumes, v, c));
            lemma_labels(containers[c].0@);
            let list = containers[c].1@;
            assert(list == destinations(declaration, c));
            assert forall|d: int| 0 <= d < list.len() implies (#[trigger] list[d])@ != "/"@
                && is_clean_absolute(list[d]@) by {
                assert(destination_accepted(volumes, v, c, d));
            }
            assert forall|d: int, e: int| 0 <= d < e < list.len() implies (#[trigger] list[d])@ != (
            #[trigger] list[e])@ by {
                assert(destination_accepted(volumes, v, c, e));
            }
        }
        assert forall|u: int| 0 <= u < v implies can_stand_together(
            (#[trigger] volumes[u]).1,
            declaration,
        ) by {
            let others = volumes[u].1.mounts.0.entries();
            assert forall|b: int, c: int, d: int, e: int|
                #![trigger others[b].1@[d], containers[c].1@[e]]
                0 <= b < others.len() && 0 <= c < containers.len() && others[b].0@
                    == containers[c].0@ && 0 <= d < others[b].1@.len() && 0 <= e
                    < containers[c].1@.len() implies others[b].1@[d]@
                != containers[c].1@[e]@ by {
                assert(container_accepted(volumes, v, c));
                assert(destination_accepted(volumes, v, c, e));
                if others[b].1@[d]@ == containers[c].1@[e]@ {
                    assert(lists_text(destinations(volumes[u].1, b), containers[c].1@[e]@));
                    assert(mounts_at(volumes[u].1, containers[c].0@, containers[c].1@[e]@));
                }
            }
        }
    }
    if is_declared_in_order(volumes[v].0, declaration, refused) && forall|u: int|
        0 <= u < v ==> can_stand_together((#[trigger] volumes[u]).1, declaration) {
        assert forall|c: int| 0 <= c < containers.len() implies #[trigger] container_accepted(
            volumes,
            v,
            c,
        ) by {
            lemma_labels(containers[c].0@);
            let list = containers[c].1@;
            assert(list == destinations(declaration, c));
            assert forall|d: int| 0 <= d < list.len() implies #[trigger] destination_accepted(
                volumes,
                v,
                c,
                d,
            ) by {
                assert(containers[c].1@[d]@ != "/"@);
                assert forall|e: int| 0 <= e < d implies (#[trigger] list[e])@ != list[d]@ by {
                    assert(containers[c].1@[e]@ != containers[c].1@[d]@);
                }
                assert forall|u: int| 0 <= u < v implies !mounts_at(
                    (#[trigger] volumes[u]).1,
                    containers[c].0@,
                    list[d]@,
                ) by {
                    assert(can_stand_together(volumes[u].1, declaration));
                    let others = volumes[u].1.mounts.0.entries();
                    if mounts_at(volumes[u].1, containers[c].0@, list[d]@) {
                        let b = choose|b: int|
                            0 <= b < others.len() && #[trigger] others[b].0@ == containers[c].0@
                                && lists_text(destinations(volumes[u].1, b), list[d]@);
                        let e = choose|e: int|
                            0 <= e < others[b].1@.len() && #[trigger] others[b].1@[e]@
                                == list[d]@;
                        assert(others[b].1@[e]@ != containers[c].1@[d]@);
                    }
                }
            }
        }
        assert forall|u: int| 0 <= u < v implies (#[trigger] volumes[u]).1.manifest_uri@
            != declaration.manifest_uri@ && volumes[u].1.device_path@
            != declaration.device_path@ by {
            assert(can_stand_together(volumes[u].1, declaration));
        }
    }
}

/// A declaration is accepted exactly where it is one to 65536 bytes long, decodes to one to 32
/// volumes, each of them is declared in order, and all of them can stand together. What is accepted
/// is what was decoded.
pub proof fn law_declarations_are_accepted_in_order_and_apart(
    raw: &str,
    decoded: Result<ConfidentialVolumeDeclarations, DeclarationError>,
    refused: TextMap<String>,
    result: Result<ConfidentialVolumeDeclarations, DeclarationError>,
    size: Result<(), DeclarationError>,
)
    requires
        call_ensures(parse_confidential_volume_declarations, (raw, decoded, &refused), result),
        call_ensures(validate_declaration_size, (raw,), size),
    ensures
        size is Ok <==> raw@.len() > 0 && encode_utf8(raw@).len() <= 65536,
        size is Err ==> size->Err_0 is Size && result is Err && result->Err_0 is Size,
        size is Ok && decoded is Err ==> result == decoded,
        result is Ok ==> result == decoded,
        result is Ok <==> {
            let volumes = decoded->Ok_0.0.entries();
            &&& size is Ok
            &&& decoded is Ok
            &&& 1 <= volumes.len() <= 32
            &&& forall|v: int|
                0 <= v < volumes.len() ==> is_declared_in_order(
                    (#[trigger] volumes[v]).0,
                    volumes[v].1,
                    refused@,
                )
            &&& forall|u: int, v: int|
                0 <= u < v < volumes.len() ==> can_stand_together(
                    (#[trigger] volumes[u]).1,
                    (#[trigger] volumes[v]).1,
                )
        },
        size is Ok && decoded is Ok && !(1 <= decoded->Ok_0.0.entries().len() <= 32)
            ==> result is Err && result->Err_0 is VolumeCount,
{
    law_annotation_accepted(raw@, decoded, refused@);
    if decoded is Ok {
        let volumes = decoded->Ok_0.0.entries();
        assert forall|v: int| 0 <= v < volumes.len() implies (#[trigger] volume_accepted(
            volumes,
            refused@,
            v,
        ) <==> is_declared_in_order(volumes[v].0, volumes[v].1, refused@) && forall|u: int|
            0 <= u < v ==> can_stand_together((#[trigger] volumes[u]).1, volumes[v].1)) by {
            lemma_volume_is_in_order(volumes, refused@, v);
        }
        if result is Ok {
            assert forall|v: int| 0 <= v < volumes.len() implies is_declared_in_order(
                (#[trigger] volumes[v]).0,
                volumes[v].1,
                refused@,
            ) by {
                assert(volume_accepted(volumes, refused@, v));
            }
            assert forall|u: int, v: int| 0 <= u < v < volumes.len() implies can_stand_together(
                (#[trigger] volumes[u]).1,
                (#[trigger] volumes[v]).1,
            ) by {
                assert(volume_accepted(volumes, refused@, v));
            }
        }
        if (forall|v: int|
            0 <= v < volumes.len() ==> is_declared_in_order(
                (#[trigger] volumes[v]).0,
                volumes[v].1,
                refused@,
            )) && (forall|u: int, v: int|
            0 <= u < v < volumes.len() ==> can_stand_together(
                (#[trigger] volumes[u]).1,
                (#[trigger] volumes[v]).1,
            )) {
            assert forall|v: int| 0 <= v < volumes.len() implies #[trigger] volume_accepted(
                volumes,
                refused@,
                v,
            ) by {
                assert(is_declared_in_order(volumes[v].0, volumes[v].1, refused@));
            }
        }
    }
}

/// Whether a volume before another has the same destination in the same container as the other has
/// at a place.
pub open spec fn destination_is_shared(
    volumes: Seq<(String, ConfidentialVolumeDeclaration)>,
    v: int,
    c: int,
    d: int,
) -> bool {
    let (container, list) = volumes[v].1.mounts.0.entries()[c];
    exists|u: int, b: int, e: int|
        #![trigger volumes[u].1.mounts.0.entries()[b].1@[e]]
        0 <= u < v && 0 <= b < volumes[u].1.mounts.0.entries().len()
            && volumes[u].1.mounts.0.entries()[b].0@ == container@ && 0 <= e
            < volumes[u].1.mounts.0.entries()[b].1@.len()
            && volumes[u].1.mounts.0.entries()[b].1@[e]@ == list@[d]@
}

/// Whether a destination stands before another in its list.
pub open spec fn destination_is_repeated(list: Seq<String>, d: int) -> bool {
    exists|e: int| 0 <= e < d && (#[trigger] list[e])@ == list[d]@
}

/// Whether a destination of a container of a volume is in order: clean, not the root, not repeated
/// and not shared.
pub open spec fn destination_is_in_order(
    volumes: Seq<(String, ConfidentialVolumeDeclaration)>,
    v: int,
    c: int,
    d: int,
) -> bool {
    let list = volumes[v].1.mounts.0.entries()[c].1@;
    &&& list[d]@ != "/"@
    &&& is_clean_absolute(list[d]@)
    &&& !destination_is_repeated(list, d)
    &&& !destination_is_shared(volumes, v, c, d)
}

/// Whether a container of a volume is in order: a DNS label, with one to 32 destinations that are in
/// order.
pub open spec fn container_is_in_order(
    volumes: Seq<(String, ConfidentialVolumeDeclaration)>,
    v: int,
    c: int,
) -> bool {
    let (container, list) = volumes[v].1.mounts.0.entries()[c];
    &&& is_written_as_a_label(container@)
    &&& 1 <= list@.len() <= 32
    &&& forall|d: int|
        0 <= d < list@.len() ==> #[trigger] destination_is_in_order(volumes, v, c, d)
}

/// Whether a problem is one that a volume has, and the first: what it says is wrong with the volume,
/// and nothing is that comes before it. The name of the volume comes first, then its manifest, the
/// access, the device, the group, and then its containers in the order of their names, each with its
/// name, the number of its destinations, and the destinations in their order.
pub open spec fn is_a_problem_of(
    problem: DeclarationError,
    volumes: Seq<(String, ConfidentialVolumeDeclaration)>,
    refused: Map<Seq<char>, String>,
    v: int,
) -> bool {
    let (volume, declaration) = volumes[v];
    let containers = declaration.mounts.0.entries();
    let uri = declaration.manifest_uri;
    let path = declaration.device_path;
    let named = is_written_as_a_label(volume@);
    let admitted = named && !refused.dom().contains(uri@);
    let uri_is_new = admitted && forall|u: int|
        0 <= u < v ==> (#[trigger] volumes[u]).1.manifest_uri@ != uri@;
    let writable = uri_is_new && declaration.access is ReadWrite;
    let on_a_device = writable && has_prefix(path@, "/dev/"@) && is_clean_absolute(path@);
    let path_is_new = on_a_device && forall|u: int|
        0 <= u < v ==> (#[trigger] volumes[u]).1.device_path@ != path@;
    let owned = path_is_new && !(declaration.fs_group is None
        && declaration.fs_group_change_policy is Some);
    &&& 0 <= v < volumes.len()
    &&& match problem {
        DeclarationError::NotDnsLabel { kind: LabelKind::Volume, name } => name == volume
            && !named,
        DeclarationError::ManifestUri(reason) => named && refused.dom().contains(uri@)
            && refused[uri@] == reason,
        DeclarationError::DuplicateManifestUri(twice) => twice == uri && admitted && !uri_is_new,
        DeclarationError::ReadOnlyAccess { volume: name } => name == volume && uri_is_new
            && declaration.access is ReadOnly,
        DeclarationError::DevicePath(wrong) => wrong == path && writable && !on_a_device,
        DeclarationError::DuplicateDevicePath(twice) => twice == path && on_a_device
            && !path_is_new,
        DeclarationError::PolicyWithoutGroup { volume: name } => name == volume && path_is_new
            && !owned,
        DeclarationError::NoMounts { volume: name } => name == volume && owned
            && containers.len() == 0,
        _ => owned && exists|c: int| #[trigger]
            is_the_problem_of_container(problem, volumes, v, c),
    }
}

/// Whether a problem is the first that a container of a volume has, and all containers before it are
/// in order.
pub open spec fn is_the_problem_of_container(
    problem: DeclarationError,
    volumes: Seq<(String, ConfidentialVolumeDeclaration)>,
    v: int,
    c: int,
) -> bool {
    let (volume, declaration) = volumes[v];
    let containers = declaration.mounts.0.entries();
    let (container, list) = containers[c];
    let named = is_written_as_a_label(container@);
    let counted = named && 1 <= list@.len() <= 32;
    &&& 0 <= c < containers.len()
    &&& forall|b: int| 0 <= b < c ==> #[trigger] container_is_in_order(volumes, v, b)
    &&& match problem {
        DeclarationError::NotDnsLabel { kind: LabelKind::Container, name } => name == container
            && !named,
        DeclarationError::DestinationCount { volume: of, container: name } => of == volume && name
            == container && named && !counted,
        _ => counted && exists|d: int| #[trigger]
            is_the_problem_of_destination(problem, volumes, v, c, d),
    }
}

/// Whether a problem is what is wrong with a destination, and all destinations before it are in
/// order.
pub open spec fn is_the_problem_of_destination(
    problem: DeclarationError,
    volumes: Seq<(String, ConfidentialVolumeDeclaration)>,
    v: int,
    c: int,
    d: int,
) -> bool {
    let (volume, declaration) = volumes[v];
    let (container, list) = declaration.mounts.0.entries()[c];
    let clean = list@[d]@ != "/"@ && is_clean_absolute(list@[d]@);
    &&& 0 <= d < list@.len()
    &&& forall|e: int| 0 <= e < d ==> #[trigger] destination_is_in_order(volumes, v, c, e)
    &&& match problem {
        DeclarationError::Destination(destination) => destination == list@[d] && !clean,
        DeclarationError::RepeatedDestination { volume: of, container: name, destination } => {
            &&& of == volume
            &&& name == container
            &&& destination == list@[d]
            &&& clean
            &&& destination_is_repeated(list@, d)
        },
        DeclarationError::SharedDestination { container: name, destination } => {
            &&& name == container
            &&& destination == list@[d]
            &&& clean
            &&& !destination_is_repeated(list@, d)
            &&& destination_is_shared(volumes, v, c, d)
        },
        _ => false,
    }
}

proof fn lemma_destination_in_order(
    volumes: Seq<(String, ConfidentialVolumeDeclaration)>,
    v: int,
    c: int,
    d: int,
)
    requires
        0 <= v < volumes.len(),
        0 <= c < volumes[v].1.mounts.0.entries().len(),
        0 <= d < destinations(volumes[v].1, c).len(),
    ensures
        destination_problem(volumes, v, c, d) is None <==> destination_is_in_order(
            volumes,
            v,
            c,
            d,
        ),
        destination_problem(volumes, v, c, d) is Some && (forall|e: int|
            0 <= e < d ==> #[trigger] destination_is_in_order(volumes, v, c, e))
            ==> is_the_problem_of_destination(
            destination_problem(volumes, v, c, d)->0,
            volumes,
            v,
            c,
            d,
        ),
{
    let (container, list) = volumes[v].1.mounts.0.entries()[c];
    let destination = list@[d];
    assert(list@ == destinations(volumes[v].1, c));
    assert(lists_text(list@.take(d), destination@) <==> destination_is_repeated(list@, d)) by {
        if lists_text(list@.take(d), destination@) {
            let e = choose|e: int|
                0 <= e < list@.take(d).len() && #[trigger] list@.take(d)[e]@ == destination@;
            assert(list@[e]@ == list@[d]@);
        }
        if destination_is_repeated(list@, d) {
            let e = choose|e: int| 0 <= e < d && (#[trigger] list@[e])@ == list@[d]@;
            assert(list@.take(d)[e]@ == destination@);
        }
    }
    let shared = exists|u: int|
        0 <= u < v && mounts_at((#[trigger] volumes[u]).1, container@, destination@);
    assert(shared <==> destination_is_shared(volumes, v, c, d)) by {
        if shared {
            let u = choose|u: int|
                0 <= u < v && mounts_at((#[trigger] volumes[u]).1, container@, destination@);
            let others = volumes[u].1.mounts.0.entries();
            let b = choose|b: int|
                0 <= b < others.len() && #[trigger] others[b].0@ == container@ && lists_text(
                    destinations(volumes[u].1, b),
                    destination@,
                );
            let e = choose|e: int|
                0 <= e < others[b].1@.len() && #[trigger] others[b].1@[e]@ == destination@;
            assert(volumes[u].1.mounts.0.entries()[b].1@[e]@ == list@[d]@);
        }
        if destination_is_shared(volumes, v, c, d) {
            let (u, b, e) = choose|u: int, b: int, e: int|
                #![trigger volumes[u].1.mounts.0.entries()[b].1@[e]]
                0 <= u < v && 0 <= b < volumes[u].1.mounts.0.entries().len()
                    && volumes[u].1.mounts.0.entries()[b].0@ == container@ && 0 <= e
                    < volumes[u].1.mounts.0.entries()[b].1@.len()
                    && volumes[u].1.mounts.0.entries()[b].1@[e]@ == list@[d]@;
            assert(lists_text(destinations(volumes[u].1, b), destination@));
            assert(mounts_at(volumes[u].1, container@, destination@));
        }
    }
}

proof fn lemma_container_in_order(
    volumes: Seq<(String, ConfidentialVolumeDeclaration)>,
    v: int,
    c: int,
)
    requires
        0 <= v < volumes.len(),
        0 <= c < volumes[v].1.mounts.0.entries().len(),
    ensures
        container_problem(volumes, v, c) is None <==> container_is_in_order(volumes, v, c),
        container_problem(volumes, v, c) is Some && (forall|b: int|
            0 <= b < c ==> #[trigger] container_is_in_order(volumes, v, b))
            ==> is_the_problem_of_container(
            container_problem(volumes, v, c)->0,
            volumes,
            v,
            c,
        ),
{
    let (container, list) = volumes[v].1.mounts.0.entries()[c];
    assert(list@ == destinations(volumes[v].1, c));
    lemma_labels(container@);
    lemma_destinations(volumes, v, c, 0);
    assert forall|d: int| 0 <= d < list@.len() implies ((#[trigger] destination_problem(
        volumes,
        v,
        c,
        d,
    )) is None <==> destination_is_in_order(volumes, v, c, d)) by {
        lemma_destination_in_order(volumes, v, c, d);
    }
    if container_problem(volumes, v, c) is None {
        assert forall|d: int| 0 <= d < list@.len() implies #[trigger] destination_is_in_order(
            volumes,
            v,
            c,
            d,
        ) by {
            assert(destination_problem(volumes, v, c, d) is None);
        }
    }
    if container_is_in_order(volumes, v, c) {
        assert forall|d: int| 0 <= d < list@.len() implies (#[trigger] destination_problem(
            volumes,
            v,
            c,
            d,
        )) is None by {
            assert(destination_is_in_order(volumes, v, c, d));
        }
    }
    if is_dns_label(container@) && 1 <= list@.len() <= 32 && destinations_problem(
        volumes,
        v,
        c,
        0,
    ) is Some {
        let problem = destinations_problem(volumes, v, c, 0)->0;
        let d = lemma_first_destination_problem(volumes, v, c, 0);
        assert forall|e: int| 0 <= e < d implies #[trigger] destination_is_in_order(
            volumes,
            v,
            c,
            e,
        ) by {
            assert(destination_problem(volumes, v, c, e) is None);
        }
        lemma_destination_in_order(volumes, v, c, d);
        assert(is_the_problem_of_destination(problem, volumes, v, c, d));
    }
}

proof fn lemma_problem_is_had(
    volumes: Seq<(String, ConfidentialVolumeDeclaration)>,
    refused: Map<Seq<char>, String>,
    v: int,
)
    requires
        0 <= v < volumes.len(),
        volume_problem(volumes, refused, v) is Some,
    ensures
        is_a_problem_of(volume_problem(volumes, refused, v)->0, volumes, refused, v),
{
    let (volume, declaration) = volumes[v];
    let problem = volume_problem(volumes, refused, v)->0;
    let containers = declaration.mounts.0.entries();
    lemma_labels(volume@);
    if containers_problem(volumes, v, 0) is Some {
        let c = lemma_first_container_problem(volumes, v, 0);
        assert forall|b: int| 0 <= b < c implies #[trigger] container_is_in_order(
            volumes,
            v,
            b,
        ) by {
            assert(container_problem(volumes, v, b) is None);
            lemma_container_in_order(volumes, v, b);
        }
        lemma_container_in_order(volumes, v, c);
        assert(is_the_problem_of_container(
            containers_problem(volumes, v, 0)->0,
            volumes,
            v,
            c,
        ));
    }
}

proof fn lemma_first_container_problem(
    volumes: Seq<(String, ConfidentialVolumeDeclaration)>,
    v: int,
    from: int,
) -> (c: int)
    requires
        containers_problem(volumes, v, from) is Some,
    ensures
        from <= c < volumes[v].1.mounts.0.entries().len(),
        container_problem(volumes, v, c) == containers_problem(volumes, v, from),
        forall|b: int| from <= b < c ==> #[trigger] container_problem(volumes, v, b) is None,
    decreases volumes[v].1.mounts.0.entries().len() - from,
{
    if container_problem(volumes, v, from) is Some {
        from
    } else {
        lemma_first_container_problem(volumes, v, from + 1)
    }
}

proof fn lemma_first_destination_problem(
    volumes: Seq<(String, ConfidentialVolumeDeclaration)>,
    v: int,
    c: int,
    from: int,
) -> (d: int)
    requires
        destinations_problem(volumes, v, c, from) is Some,
    ensures
        from <= d < destinations(volumes[v].1, c).len(),
        destination_problem(volumes, v, c, d) == destinations_problem(volumes, v, c, from),
        forall|e: int| from <= e < d ==> #[trigger] destination_problem(volumes, v, c, e) is None,
    decreases destinations(volumes[v].1, c).len() - from,
{
    if destination_problem(volumes, v, c, from) is Some {
        from
    } else {
        lemma_first_destination_problem(volumes, v, c, from + 1)
    }
}

proof fn lemma_first_volume_problem(
    volumes: Seq<(String, ConfidentialVolumeDeclaration)>,
    refused: Map<Seq<char>, String>,
    from: int,
) -> (v: int)
    requires
        volumes_problem(volumes, refused, from) is Some,
    ensures
        from <= v < volumes.len(),
        volume_problem(volumes, refused, v) == volumes_problem(volumes, refused, from),
        forall|u: int|
            from <= u < v ==> #[trigger] volume_problem(volumes, refused, u) is None,
    decreases volumes.len() - from,
{
    if volume_problem(volumes, refused, from) is Some {
        from
    } else {
        lemma_first_volume_problem(volumes, refused, from + 1)
    }
}

/// A refused declaration is refused for what is wrong with it: the problem that is reported is the
/// first of the first volume, in the order of names, that has any.
pub proof fn law_reported_problem_is_the_first(
    raw: &str,
    decoded: ConfidentialVolumeDeclarations,
    refused: TextMap<String>,
    problem: DeclarationError,
)
    requires
        call_ensures(
            parse_confidential_volume_declarations,
            (raw, Ok(decoded), &refused),
            Err(problem),
        ),
        !(problem is Size),
        !(problem is VolumeCount),
    ensures
        exists|v: int| {
            &&& #[trigger] is_a_problem_of(problem, decoded.0.entries(), refused@, v)
            &&& forall|u: int|
                0 <= u < v ==> is_declared_in_order(
                    (#[trigger] decoded.0.entries()[u]).0,
                    decoded.0.entries()[u].1,
                    refused@,
                )
            &&& forall|t: int, u: int|
                0 <= t < u < v ==> can_stand_together(
                    (#[trigger] decoded.0.entries()[t]).1,
                    (#[trigger] decoded.0.entries()[u]).1,
                )
        },
{
    let volumes = decoded.0.entries();
    let v = lemma_first_volume_problem(volumes, refused@, 0);
    lemma_problem_is_had(volumes, refused@, v);
    assert forall|u: int| 0 <= u < v implies is_declared_in_order(
        (#[trigger] volumes[u]).0,
        volumes[u].1,
        refused@,
    ) by {
        assert(volume_problem(volumes, refused@, u) is None);
        lemma_volume_accepted(volumes, refused@, u);
        lemma_volume_is_in_order(volumes, refused@, u);
    }
    assert forall|t: int, u: int| 0 <= t < u < v implies can_stand_together(
        (#[trigger] volumes[t]).1,
        (#[trigger] volumes[u]).1,
    ) by {
        assert(volume_problem(volumes, refused@, u) is None);
        lemma_volume_accepted(volumes, refused@, u);
        lemma_volume_is_in_order(volumes, refused@, u);
    }
    assert(is_a_problem_of(problem, volumes, refused@, v));
}

/// A volume, and a container of a volume, can be declared once: the first declaration is accepted,
/// and a second under the same name is refused.
pub proof fn law_each_name_is_declared_once(
    volumes: &mut ConfidentialVolumeDeclarations,
    volume: String,
    declaration: ConfidentialVolumeDeclaration,
    declared: Result<(), DeclarationError>,
    mounts: &mut ConfidentialVolumeMounts,
    container: String,
    list: Vec<String>,
    mounted: Result<(), DeclarationError>,
)
    requires
        call_ensures(
            ConfidentialVolumeDeclarations::declare,
            (volumes, volume, declaration),
            declared,
        ),
        call_ensures(ConfidentialVolumeMounts::declare, (mounts, container, list), mounted),
    ensures
        declared is Ok <==> !old(volumes).0@.dom().contains(volume@),
        declared is Err ==> declared->Err_0 is DuplicateVolume,
        final(volumes).0@.dom().contains(volume@),
        final(volumes).0@[volume@] == declaration,
        mounted is Ok <==> !old(mounts).0@.dom().contains(container@),
        mounted is Err ==> mounted->Err_0 is DuplicateContainer,
        final(mounts).0@.dom().contains(container@),
        final(mounts).0@[container@] == list,
{
}

/// What is said of a refused declaration quotes the name, path or destination that it was refused for.
pub proof fn law_declaration_messages_quote_what_was_refused(
    error: DeclarationError,
    message: String,
)
    requires
        call_ensures(DeclarationError::message, (&error,), message),
    ensures
        message@ == match error {
            DeclarationError::Size =>
                "confidential volume declaration must be between 1 and 65536 bytes"@,
            DeclarationError::Invalid(error) => "invalid confidential volume declaration: "@
                + error@,
            DeclarationError::VolumeCount =>
                "confidential volume declaration must contain between 1 and 32 volumes"@,
            DeclarationError::DuplicateVolume => "duplicate confidential volume declaration"@,
            DeclarationError::DuplicateContainer =>
                "duplicate confidential volume container declaration"@,
            DeclarationError::NotDnsLabel { kind: LabelKind::Volume, name } => "confidential volume name "@
                + quoted(name@) + " is not a DNS label"@,
            DeclarationError::NotDnsLabel { kind: LabelKind::Container, name } => "confidential container name "@
                + quoted(name@) + " is not a DNS label"@,
            DeclarationError::ManifestUri(reason) => reason@,
            DeclarationError::DuplicateManifestUri(uri) => "confidential manifest URI "@
                + quoted(uri@) + " is assigned to more than one volume"@,
            DeclarationError::ReadOnlyAccess { volume } => "confidential volume "@
                + quoted(volume@) + " requests unsupported readOnly access"@,
            DeclarationError::DevicePath(path) => "confidential device path "@ + quoted(path@)
                + " must be a clean absolute path beneath /dev"@,
            DeclarationError::DuplicateDevicePath(path) => "confidential device path "@
                + quoted(path@) + " is assigned to more than one volume"@,
            DeclarationError::PolicyWithoutGroup { volume } => "confidential volume "@
                + quoted(volume@) + " fsGroupChangePolicy requires fsGroup"@,
            DeclarationError::NoMounts { volume } => "confidential volume "@ + quoted(volume@)
                + " must name at least one container mount"@,
            DeclarationError::DestinationCount { volume, container } => "confidential volume "@
                + quoted(volume@) + " container "@ + quoted(container@)
                + " must contain between 1 and 32 mount destinations"@,
            DeclarationError::Destination(destination) => "confidential mount destination "@
                + quoted(destination@) + " must be a clean non-root absolute path"@,
            DeclarationError::RepeatedDestination { volume, container, destination } => "confidential volume "@
                + quoted(volume@) + " repeats mount destination "@ + quoted(destination@)
                + " for container "@ + quoted(container@),
            DeclarationError::SharedDestination { container, destination } => "confidential mount destination "@
                + quoted(destination@) + " for container "@ + quoted(container@)
                + " is assigned to more than one volume"@,
        },
{
}

} // verus!
