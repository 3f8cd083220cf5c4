use std::fmt;

use confidential_storage::declaration::{
    parse_confidential_volume_declarations, validate_declaration_size, validate_device_path, validate_dns_label,
    validate_mount_destination, ConfidentialFSGroupChangePolicy, ConfidentialStorageAccess,
    ConfidentialVolumeDeclaration, ConfidentialVolumeDeclarations, ConfidentialVolumeMounts,
    DeclarationError, LabelKind,
};
use confidential_storage::names::{
    KATA_ANNO_CONFIDENTIAL_VOLUME, KATA_CONFIDENTIAL_STORAGE_MOUNT_ROOT,
};
use confidential_storage::plan::{
    build_confidential_volume_plan, ConfidentialVolumePlan, PlanError,
};
use confidential_storage::text_map::TextMap;
use confidential_storage::types::{
    ContainerDevice, Device, FSGroup, FSGroupChangePolicy, Linux, LinuxDevice, LinuxDeviceType,
    Mount, SharedFsInfo, Spec,
};
use serde::de::{Deserialize, Deserializer, Error, MapAccess, Visitor};

const VALID: &str = r#"{
    "workspace": {
        "devicePath": "/dev/confidential-workspace",
        "manifestUri": "kbs:///tenant/storage-manifests/workspace-v1",
        "access": "readWrite",
        "fsGroup": 1000,
        "fsGroupChangePolicy": "OnRootMismatch",
        "mounts": {
            "workspace": ["/home/workspace", "/workspace"],
            "dind": ["/workspace"]
        }
    }
}"#;

struct DecodedMounts(ConfidentialVolumeMounts);

struct MountsVisitor;

impl<'de> Visitor<'de> for MountsVisitor {
    type Value = DecodedMounts;

    fn expecting(&self, formatter: &mut fmt::Formatter<'_>) -> fmt::Result {
        formatter.write_str("a map of unique container mount declarations")
    }

    fn visit_map<A: MapAccess<'de>>(self, mut map: A) -> Result<Self::Value, A::Error> {
        let mut mounts = ConfidentialVolumeMounts(TextMap::new());
        while let Some((name, destinations)) = map.next_entry::<String, Vec<String>>()? {
            mounts
                .declare(name, destinations)
                .map_err(|error| A::Error::custom(error.message()))?;
        }
        Ok(DecodedMounts(mounts))
    }
}

impl<'de> Deserialize<'de> for DecodedMounts {
    fn deserialize<D: Deserializer<'de>>(deserializer: D) -> Result<Self, D::Error> {
        deserializer.deserialize_map(MountsVisitor)
    }
}

struct DecodedDeclaration(ConfidentialVolumeDeclaration);

struct DeclarationVisitor;

fn access<E: Error>(text: &str) -> Result<ConfidentialStorageAccess, E> {
    match text {
        "readWrite" => Ok(ConfidentialStorageAccess::ReadWrite),
        "readOnly" => Ok(ConfidentialStorageAccess::ReadOnly),
        _ => Err(E::custom("unknown access")),
    }
}

fn policy<E: Error>(text: &str) -> Result<ConfidentialFSGroupChangePolicy, E> {
    match text {
        "Always" => Ok(ConfidentialFSGroupChangePolicy::Always),
        "OnRootMismatch" => Ok(ConfidentialFSGroupChangePolicy::OnRootMismatch),
        _ => Err(E::custom("unknown policy")),
    }
}

fn once<T, E: Error>(slot: &mut Option<T>, value: T) -> Result<(), E> {
    match slot.replace(value) {
        Some(_) => Err(E::custom("duplicate field")),
        None => Ok(()),
    }
}

fn needed<T, E: Error>(slot: Option<T>) -> Result<T, E> {
    slot.ok_or_else(|| E::custom("missing field"))
}

impl<'de> Visitor<'de> for DeclarationVisitor {
    type Value = DecodedDeclaration;

    fn expecting(&self, formatter: &mut fmt::Formatter<'_>) -> fmt::Result {
        formatter.write_str("a confidential volume declaration")
    }

    fn visit_map<A: MapAccess<'de>>(self, mut map: A) -> Result<Self::Value, A::Error> {
        let mut device_path = None;
        let mut manifest_uri = None;
        let mut requested = None;
        let mut fs_group = None;
        let mut change_policy = None;
        let mut mounts = None;
        while let Some(key) = map.next_key::<String>()? {
            match key.as_str() {
                "devicePath" => once(&mut device_path, map.next_value::<String>()?)?,
                "manifestUri" => once(&mut manifest_uri, map.next_value::<String>()?)?,
                "access" => once(&mut requested, access(&map.next_value::<String>()?)?)?,
                "fsGroup" => once(&mut fs_group, map.next_value::<u32>()?)?,
                "fsGroupChangePolicy" => {
                    once(&mut change_policy, policy(&map.next_value::<String>()?)?)?
                }
                "mounts" => once(&mut mounts, map.next_value::<DecodedMounts>()?)?,
                _ => return Err(A::Error::custom("unknown field")),
            }
        }
        Ok(DecodedDeclaration(ConfidentialVolumeDeclaration {
            device_path: needed(device_path)?,
            manifest_uri: needed(manifest_uri)?,
            access: needed(requested)?,
            fs_group,
            fs_group_change_policy: change_policy,
            mounts: needed(mounts)?.0,
        }))
    }
}

impl<'de> Deserialize<'de> for DecodedDeclaration {
    fn deserialize<D: Deserializer<'de>>(deserializer: D) -> Result<Self, D::Error> {
        deserializer.deserialize_map(DeclarationVisitor)
    }
}

struct DecodedDeclarations(ConfidentialVolumeDeclarations);

struct DeclarationsVisitor;

impl<'de> Visitor<'de> for DeclarationsVisitor {
    type Value = DecodedDeclarations;

    fn expecting(&self, formatter: &mut fmt::Formatter<'_>) -> fmt::Result {
        formatter.write_str("a map of unique confidential volume declarations")
    }

    fn visit_map<A: MapAccess<'de>>(self, mut map: A) -> Result<Self::Value, A::Error> {
        let mut declarations = ConfidentialVolumeDeclarations(TextMap::new());
        while let Some((name, declaration)) = map.next_entry::<String, DecodedDeclaration>()? {
            declarations
                .declare(name, declaration.0)
                .map_err(|error| A::Error::custom(error.message()))?;
        }
        Ok(DecodedDeclarations(declarations))
    }
}

impl<'de> Deserialize<'de> for DecodedDeclarations {
    fn deserialize<D: Deserializer<'de>>(deserializer: D) -> Result<Self, D::Error> {
        deserializer.deserialize_map(DeclarationsVisitor)
    }
}

fn decode(raw: &str) -> Result<ConfidentialVolumeDeclarations, DeclarationError> {
    serde_json::from_str::<DecodedDeclarations>(raw)
        .map(|declarations| declarations.0)
        .map_err(|error| DeclarationError::Invalid(error.to_string()))
}

fn parse(raw: &str) -> Result<ConfidentialVolumeDeclarations, DeclarationError> {
    parse_confidential_volume_declarations(raw, decode(raw), &TextMap::new())
}

#[test]
fn accepts_exact_backend_neutral_contract() {
    let declarations = parse(VALID).unwrap();
    let declaration = declarations.0.get("workspace").unwrap();
    assert_eq!(declaration.device_path, "/dev/confidential-workspace");
    assert_eq!(declaration.fs_group, Some(1000));
    assert_eq!(
        declaration.fs_group_change_policy,
        Some(ConfidentialFSGroupChangePolicy::OnRootMismatch)
    );
    assert_eq!(
        *declaration.mounts.0.get("workspace").unwrap(),
        ["/home/workspace", "/workspace"]
    );
}

#[test]
fn rejects_ambiguous_or_mutable_contracts() {
    let invalid = [
        VALID.replace("\"access\": \"readWrite\"", "\"access\": \"readOnly\""),
        VALID.replace("/dev/confidential-workspace", "../dev/workspace"),
        VALID.replace("/home/workspace", "/home/../workspace"),
        VALID.replace(
            "\"fsGroupChangePolicy\": \"OnRootMismatch\",",
            "\"fsGroupChangePolicy\": \"OnRootMismatch\", \"unexpected\": true,",
        ),
        VALID.replace(
            "\"workspace\": {",
            "\"workspace\": {\"manifestUri\": \"kbs:///tenant/storage-manifests/duplicate-v1\", \"access\": \"readWrite\", \"devicePath\": \"/dev/duplicate\", \"mounts\": {\"workspace\": [\"/duplicate\"]}}, \"workspace\": {",
        ),
        VALID.replace(
            "\"dind\": [\"/workspace\"]",
            "\"workspace\": [\"/other\"], \"dind\": [\"/workspace\"]",
        ),
    ];

    for raw in invalid {
        assert!(parse(&raw).is_err(), "unexpectedly accepted {}", raw);
    }
}

#[test]
fn rejects_destination_collisions_between_volumes() {
    let raw = r#"{
        "first":{"devicePath":"/dev/first","manifestUri":"kbs:///t/m/first","access":"readWrite","mounts":{"workspace":["/data"]}},
        "second":{"devicePath":"/dev/second","manifestUri":"kbs:///t/m/second","access":"readWrite","mounts":{"workspace":["/data"]}}
    }"#;
    assert!(parse(raw).is_err());
}

fn volume(mounts: &[(&str, &[&str])]) -> ConfidentialVolumeDeclaration {
    let mut declared = ConfidentialVolumeMounts(TextMap::new());
    for (container, destinations) in mounts {
        declared
            .declare(
                container.to_string(),
                destinations.iter().map(|text| text.to_string()).collect(),
            )
            .unwrap();
    }
    ConfidentialVolumeDeclaration {
        device_path: "/dev/data".to_string(),
        manifest_uri: "kbs:///t/m/data".to_string(),
        access: ConfidentialStorageAccess::ReadWrite,
        fs_group: None,
        fs_group_change_policy: None,
        mounts: declared,
    }
}

fn volumes(
    list: Vec<(&str, ConfidentialVolumeDeclaration)>,
) -> Result<ConfidentialVolumeDeclarations, DeclarationError> {
    let mut declarations = ConfidentialVolumeDeclarations(TextMap::new());
    for (name, declaration) in list {
        declarations.declare(name.to_string(), declaration)?;
    }
    Ok(declarations)
}

fn problem(decoded: Result<ConfidentialVolumeDeclarations, DeclarationError>) -> String {
    parse_confidential_volume_declarations("{}", decoded, &TextMap::new())
        .unwrap_err()
        .message()
}

#[test]
fn annotations_have_a_size() {
    for raw in ["".to_string(), "x".repeat(65537)] {
        assert!(validate_declaration_size(&raw).is_err());
        assert!(matches!(
            parse_confidential_volume_declarations(
                &raw,
                volumes(vec![("data", volume(&[("app", &["/data"])]))]),
                &TextMap::new()
            ),
            Err(DeclarationError::Size)
        ));
    }
    for raw in ["x".to_string(), "x".repeat(65536)] {
        assert!(validate_declaration_size(&raw).is_ok());
        assert!(parse_confidential_volume_declarations(
            &raw,
            volumes(vec![("data", volume(&[("app", &["/data"])]))]),
            &TextMap::new()
        )
        .is_ok());
    }
    // Bytes count, not characters.
    assert!(parse_confidential_volume_declarations(
        &"\u{e9}".repeat(32769),
        volumes(vec![("data", volume(&[("app", &["/data"])]))]),
        &TextMap::new()
    )
    .is_err());
}

#[test]
fn declarations_are_refused_for_each_fault() {
    assert_eq!(
        problem(Err(DeclarationError::Invalid("eof".to_string()))),
        "invalid confidential volume declaration: eof"
    );
    assert_eq!(
        problem(volumes(vec![])),
        "confidential volume declaration must contain between 1 and 32 volumes"
    );
    assert_eq!(
        problem(volumes(vec![("Data", volume(&[("app", &["/data"])]))])),
        "confidential volume name \"Data\" is not a DNS label"
    );
    assert_eq!(
        problem(volumes(vec![("data", volume(&[("-app", &["/data"])]))])),
        "confidential container name \"-app\" is not a DNS label"
    );
    let mut bad_path = volume(&[("app", &["/data"])]);
    bad_path.device_path = "/devices".to_string();
    assert_eq!(
        problem(volumes(vec![("data", bad_path)])),
        "confidential device path \"/devices\" must be a clean absolute path beneath /dev"
    );
    assert_eq!(
        problem(volumes(vec![("data", volume(&[("app", &["/"])]))])),
        "confidential mount destination \"/\" must be a clean non-root absolute path"
    );
    assert!(parse_confidential_volume_declarations(
        "{}",
        volumes(vec![("data", volume(&[]))]),
        &TextMap::new()
    )
    .is_err());
    assert!(parse_confidential_volume_declarations(
        "{}",
        volumes(vec![("data", volume(&[("app", &[])]))]),
        &TextMap::new()
    )
    .is_err());
    let mut refused = TextMap::new();
    refused.insert("kbs:///t/m/data".to_string(), "not measured".to_string());
    let error = parse_confidential_volume_declarations(
        "{}",
        volumes(vec![("data", volume(&[("app", &["/data"])]))]),
        &refused,
    )
    .unwrap_err();
    assert!(error.message().contains("not measured"));
    assert!(matches!(
        volumes(vec![
            ("data", volume(&[("app", &["/data"])])),
            ("data", volume(&[("app", &["/other"])])),
        ]),
        Err(DeclarationError::DuplicateVolume)
    ));
}

#[test]
fn declarations_that_collide_are_refused() {
    let mut first = volume(&[("app", &["/data"])]);
    first.device_path = "/dev/first".to_string();
    let second = volume(&[("app", &["/other"])]);
    assert_eq!(
        problem(volumes(vec![("first", first), ("second", second)])),
        "confidential manifest URI \"kbs:///t/m/data\" is assigned to more than one volume"
    );
    let mut first = volume(&[("app", &["/data"])]);
    first.manifest_uri = "kbs:///t/m/first".to_string();
    let second = volume(&[("app", &["/other"])]);
    assert_eq!(
        problem(volumes(vec![("first", first), ("second", second)])),
        "confidential device path \"/dev/data\" is assigned to more than one volume"
    );
    let mut first = volume(&[("app", &["/data"])]);
    first.manifest_uri = "kbs:///t/m/first".to_string();
    first.device_path = "/dev/first".to_string();
    let second = volume(&[("app", &["/data"])]);
    assert_eq!(
        problem(volumes(vec![("first", first), ("second", second)])),
        "confidential mount destination \"/data\" for container \"app\" is assigned to more than one volume"
    );
    assert_eq!(
        problem(volumes(vec![("data", volume(&[("app", &["/a", "/b", "/a"])]))])),
        "confidential volume \"data\" repeats mount destination \"/a\" for container \"app\""
    );
    let mut first = volume(&[("app", &["/data"])]);
    first.manifest_uri = "kbs:///t/m/first".to_string();
    first.device_path = "/dev/first".to_string();
    let second = volume(&[("other", &["/data"])]);
    assert!(parse_confidential_volume_declarations(
        "{}",
        volumes(vec![("first", first), ("second", second)]),
        &TextMap::new()
    )
    .is_ok());
}

#[test]
fn declarations_with_unsupported_requests_are_refused() {
    let mut read_only = volume(&[("app", &["/data"])]);
    read_only.access = ConfidentialStorageAccess::ReadOnly;
    assert_eq!(
        problem(volumes(vec![("data", read_only)])),
        "confidential volume \"data\" requests unsupported readOnly access"
    );
    let mut groupless = volume(&[("app", &["/data"])]);
    groupless.fs_group_change_policy = Some(ConfidentialFSGroupChangePolicy::Always);
    assert_eq!(
        problem(volumes(vec![("data", groupless)])),
        "confidential volume \"data\" fsGroupChangePolicy requires fsGroup"
    );
    assert_eq!(
        problem(volumes(vec![("data", volume(&[]))])),
        "confidential volume \"data\" must name at least one container mount"
    );
    let many: Vec<String> = (0..33).map(|i| format!("/data{i}")).collect();
    let many: Vec<&str> = many.iter().map(String::as_str).collect();
    for destinations in [&[][..], &many[..]] {
        assert_eq!(
            problem(volumes(vec![("data", volume(&[("app", destinations)]))])),
            "confidential volume \"data\" container \"app\" must contain between 1 and 32 mount destinations"
        );
    }
    let mut crowd = Vec::new();
    let names: Vec<String> = (0..33).map(|i| format!("v{i}")).collect();
    for name in &names {
        crowd.push((name.as_str(), volume(&[("app", &["/data"])])));
    }
    assert_eq!(
        problem(volumes(crowd)),
        "confidential volume declaration must contain between 1 and 32 volumes"
    );
}

#[test]
fn names_and_paths_are_validated() {
    for label in ["a", "0", "a-b", &"x".repeat(63)] {
        assert!(validate_dns_label(LabelKind::Volume, &label.to_string()).is_ok());
    }
    for label in ["", "-a", "a-", "A", "a_b", "\u{e9}", &"x".repeat(64)] {
        assert!(validate_dns_label(LabelKind::Container, &label.to_string()).is_err());
    }
    assert!(validate_device_path(&"/dev/data".to_string()).is_ok());
    for path in ["/dev/", "/dev", "/dev/a/../b", "dev/data", "/devices/a"] {
        assert!(validate_device_path(&path.to_string()).is_err());
    }
    assert!(validate_mount_destination(&"/data".to_string()).is_ok());
    for path in ["/", "", "data", "/data/", "/a//b", "/a/.."] {
        assert!(validate_mount_destination(&path.to_string()).is_err());
    }
}

const DECLARATION: &str = r#"{
    "workspace": {
        "devicePath": "/dev/confidential-workspace",
        "manifestUri": "kbs:///tenant/storage-manifests/workspace-v1",
        "access": "readWrite",
        "fsGroup": 1000,
        "fsGroupChangePolicy": "OnRootMismatch",
        "mounts": {"workspace": ["/home/workspace", "/workspace"]}
    }
}"#;

const SHARED_DECLARATION: &str = r#"{
    "workspace": {
        "devicePath": "/dev/confidential-workspace",
        "manifestUri": "kbs:///tenant/storage-manifests/workspace-v1",
        "access": "readWrite",
        "fsGroup": 1000,
        "fsGroupChangePolicy": "OnRootMismatch",
        "mounts": {
            "workspace": ["/home/workspace", "/workspace"],
            "dind": ["/workspace"]
        }
    }
}"#;

fn block_device(path: &str) -> LinuxDevice {
    LinuxDevice {
        path: path.to_string(),
        typ: LinuxDeviceType::B,
        major: 8,
        minor: 1,
        file_mode: None,
        uid: None,
        gid: None,
    }
}

fn spec(container_name: &str, declaration: Option<&str>) -> Spec {
    let mut annotations = TextMap::new();
    annotations.insert(
        "io.kubernetes.cri.container-name".to_string(),
        container_name.to_string(),
    );
    if let Some(declaration) = declaration {
        annotations.insert(
            KATA_ANNO_CONFIDENTIAL_VOLUME.to_string(),
            declaration.to_string(),
        );
    }
    Spec {
        annotations: Some(annotations),
        mounts: None,
        linux: Some(Linux {
            devices: Some(vec![block_device("/dev/confidential-workspace")]),
        }),
    }
}

fn raw_device() -> ContainerDevice<()> {
    ContainerDevice {
        device_info: None,
        device: Device {
            id: "00/00".to_string(),
            field_type: "blk".to_string(),
            vm_path: "/dev/vda".to_string(),
            container_path: "/dev/confidential-workspace".to_string(),
            options: Vec::new(),
        },
    }
}

fn ordinary_device() -> ContainerDevice<()> {
    ContainerDevice {
        device_info: None,
        device: Device {
            id: "01/00".to_string(),
            field_type: "blk".to_string(),
            vm_path: "/dev/vdb".to_string(),
            container_path: "/dev/ordinary".to_string(),
            options: Vec::new(),
        },
    }
}

fn disabled_shared_fs() -> SharedFsInfo {
    SharedFsInfo { shared_fs: None }
}

fn annotation<'a>(spec: &'a Spec, key: &str) -> Option<&'a String> {
    spec.annotations.as_ref().and_then(|all| all.get(key))
}

fn build(
    spec: &mut Spec,
    devices: Vec<ContainerDevice<()>>,
    shared_fs: Option<&SharedFsInfo>,
) -> Result<ConfidentialVolumePlan, PlanError> {
    let container = annotation(spec, "io.kubernetes.cri.container-name")
        .cloned()
        .unwrap();
    let raw = annotation(spec, KATA_ANNO_CONFIDENTIAL_VOLUME)
        .cloned()
        .unwrap_or_default();
    let mut names = TextMap::new();
    names.insert(
        "kbs:///tenant/storage-manifests/workspace-v1".to_string(),
        Ok("workspace-v1".to_string()),
    );
    names.insert(
        "kbs:///tenant/storage-manifests/workspace-v2".to_string(),
        Err("manifest URI has no name".to_string()),
    );
    build_confidential_volume_plan(
        spec,
        &devices,
        shared_fs,
        &container,
        decode(&raw),
        &TextMap::new(),
        &names,
    )
}

#[test]
fn translates_and_consumes_raw_device() {
    let mut spec = spec("workspace", Some(DECLARATION));
    let plan = build(&mut spec, vec![raw_device()], Some(&disabled_shared_fs())).unwrap();

    assert_eq!(plan.storages.len(), 1);
    assert_eq!(plan.mounts.len(), 2);
    assert_eq!(plan.storages[0].driver, "blk");
    assert_eq!(plan.storages[0].source, "00/00");
    assert_eq!(
        plan.storages[0]
            .confidential_storage
            .as_ref()
            .unwrap()
            .manifest_uri,
        "kbs:///tenant/storage-manifests/workspace-v1"
    );
    assert_eq!(
        plan.storages[0].fs_group,
        Some(FSGroup {
            group_id: 1000,
            group_change_policy: FSGroupChangePolicy::OnRootMismatch,
        })
    );
    let remaining = plan.consume_devices(&mut spec, vec![raw_device()]).unwrap();
    assert!(remaining.is_empty());
    assert!(spec.linux.as_ref().unwrap().devices.is_none());
    assert!(annotation(&spec, KATA_ANNO_CONFIDENTIAL_VOLUME).is_none());
}

#[test]
fn ordinary_devices_are_unchanged_without_opt_in() {
    let mut spec = spec("workspace", None);
    let plan = build(&mut spec, vec![raw_device()], None).unwrap();
    let remaining = plan.consume_devices(&mut spec, vec![raw_device()]).unwrap();
    assert!(plan.storages.is_empty());
    assert_eq!(remaining.len(), 1);
    assert_eq!(
        spec.linux.as_ref().unwrap().devices.as_ref().unwrap().len(),
        1
    );
}

#[test]
fn rejects_missing_or_enabled_shared_fs_before_building_storage() {
    for shared_fs_name in ["virtio-fs", "inline-virtio-fs", "virtio-fs-nydus", "9p"] {
        let mut spec = spec("workspace", Some(DECLARATION));
        let shared_fs = SharedFsInfo {
            shared_fs: Some(shared_fs_name.to_string()),
        };
        let error = build(&mut spec, vec![raw_device()], Some(&shared_fs)).unwrap_err();
        assert!(error.message().contains("requires shared_fs=none"));
        assert!(annotation(&spec, KATA_ANNO_CONFIDENTIAL_VOLUME).is_some());
    }

    let mut spec = spec("workspace", Some(DECLARATION));
    let error = build(&mut spec, vec![raw_device()], None).unwrap_err();
    assert!(error.message().contains("unambiguous selected hypervisor"));
    assert!(annotation(&spec, KATA_ANNO_CONFIDENTIAL_VOLUME).is_some());
}

#[test]
fn consumes_only_the_declared_device_from_mixed_input() {
    let mut spec = spec("workspace", Some(DECLARATION));
    let plan = build(
        &mut spec,
        vec![raw_device(), ordinary_device()],
        Some(&disabled_shared_fs()),
    )
    .unwrap();
    let remaining = plan
        .consume_devices(&mut spec, vec![raw_device(), ordinary_device()])
        .unwrap();
    assert_eq!(remaining.len(), 1);
    assert_eq!(remaining[0].device.container_path, "/dev/ordinary");
}

#[test]
fn shares_one_stable_guest_activation_across_declared_containers() {
    let mut workspace = spec("workspace", Some(SHARED_DECLARATION));
    let mut dind = spec("dind", Some(SHARED_DECLARATION));
    let workspace_plan = build(
        &mut workspace,
        vec![raw_device()],
        Some(&disabled_shared_fs()),
    )
    .unwrap();
    let dind_plan = build(&mut dind, vec![raw_device()], Some(&disabled_shared_fs())).unwrap();

    assert_eq!(workspace_plan.storages.len(), 1);
    assert_eq!(dind_plan.storages.len(), 1);
    assert_eq!(
        workspace_plan.storages[0].mount_point, dind_plan.storages[0].mount_point,
        "the Agent can reference-count one sandbox-scoped activation"
    );
    assert_eq!(workspace_plan.mounts.len(), 2);
    assert_eq!(dind_plan.mounts.len(), 1);
}

#[test]
fn rejects_missing_duplicate_or_undeclared_device_use() {
    let mut workspace_spec = spec("workspace", Some(DECLARATION));
    assert!(build(&mut workspace_spec, vec![], Some(&disabled_shared_fs())).is_err());
    let mut workspace_spec = spec("workspace", Some(DECLARATION));
    assert!(build(
        &mut workspace_spec,
        vec![raw_device(), raw_device()],
        Some(&disabled_shared_fs())
    )
    .is_err());

    let mut spec = spec("other", Some(DECLARATION));
    assert!(build(&mut spec, vec![raw_device()], Some(&disabled_shared_fs())).is_err());
}

#[test]
fn rejects_existing_mount_collision() {
    let mut spec = spec("workspace", Some(DECLARATION));
    spec.mounts = Some(vec![Mount {
        destination: "/workspace".to_string(),
        typ: None,
        source: None,
        options: None,
    }]);
    assert!(build(&mut spec, vec![raw_device()], Some(&disabled_shared_fs())).is_err());
}

#[test]
fn rejects_agent_source_identity_aliases() {
    let mut spec = spec("workspace", Some(DECLARATION));
    let confidential = raw_device();
    let mut alias = ordinary_device();
    alias.device.id.clone_from(&confidential.device.id);

    let error = build(
        &mut spec,
        vec![confidential, alias],
        Some(&disabled_shared_fs()),
    )
    .unwrap_err();
    assert!(error
        .message()
        .contains("aliased by another device request"));
}

#[test]
fn rejects_oci_major_minor_aliases() {
    let mut spec = spec("workspace", Some(DECLARATION));
    spec.linux
        .as_mut()
        .unwrap()
        .devices
        .as_mut()
        .unwrap()
        .push(block_device("/dev/ordinary"));

    let error = build(&mut spec, vec![raw_device()], Some(&disabled_shared_fs())).unwrap_err();
    assert!(error.message().contains("aliased by another OCI device"));
}

#[test]
fn consumes_only_the_bound_device_identities() {
    let mut spec = spec("workspace", Some(DECLARATION));
    let plan = build(&mut spec, vec![raw_device()], Some(&disabled_shared_fs())).unwrap();
    let mut substituted = raw_device();
    substituted.device.id = "01/00".to_string();

    let error = plan
        .consume_devices(&mut spec, vec![substituted])
        .unwrap_err();
    assert!(error
        .message()
        .contains("device identity must be consumed exactly once"));
}

#[test]
fn rejects_confidential_mapper_paths_and_non_block_oci_types() {
    let mut mapper = raw_device();
    mapper.device.vm_path = "/dev/mapper/coco-pv-existing".to_string();
    let mut mapper_spec = spec("workspace", Some(DECLARATION));
    assert!(build(&mut mapper_spec, vec![mapper], Some(&disabled_shared_fs())).is_err());

    let mut char_spec = spec("workspace", Some(DECLARATION));
    char_spec
        .linux
        .as_mut()
        .unwrap()
        .devices
        .as_mut()
        .unwrap()[0]
        .typ = LinuxDeviceType::C;
    assert!(build(
        &mut char_spec,
        vec![raw_device()],
        Some(&disabled_shared_fs())
    )
    .is_err());
}

#[test]
fn plans_name_each_fault() {
    let shared_fs = disabled_shared_fs();

    let mut other = spec("other", Some(DECLARATION));
    assert!(matches!(
        build(&mut other, vec![raw_device()], Some(&shared_fs)),
        Err(PlanError::UndeclaredContainer { .. })
    ));

    let mut none = spec("workspace", Some(DECLARATION));
    assert!(matches!(
        build(&mut none, vec![], Some(&shared_fs)),
        Err(PlanError::DeviceCount { .. })
    ));

    let mut mapper = raw_device();
    mapper.device.vm_path = "/dev/mapper/coco-pv-x".to_string();
    let mut mapped = spec("workspace", Some(DECLARATION));
    assert!(matches!(
        build(&mut mapped, vec![mapper], Some(&shared_fs)),
        Err(PlanError::InvalidIdentity { .. })
    ));

    let mut bare = spec("workspace", Some(DECLARATION));
    bare.linux = None;
    assert!(matches!(
        build(&mut bare, vec![raw_device()], Some(&shared_fs)),
        Err(PlanError::MissingLinux)
    ));

    let mut empty = spec("workspace", Some(DECLARATION));
    empty.linux = Some(Linux { devices: None });
    assert!(matches!(
        build(&mut empty, vec![raw_device()], Some(&shared_fs)),
        Err(PlanError::OciDevice { .. })
    ));

    let mut broken = spec("workspace", Some("{"));
    assert!(matches!(
        build(&mut broken, vec![raw_device()], Some(&shared_fs)),
        Err(PlanError::Declaration(DeclarationError::Invalid(_)))
    ));

    let mut unnamed = spec(
        "workspace",
        Some(&DECLARATION.replace("workspace-v1", "workspace-v2")),
    );
    let error = build(&mut unnamed, vec![raw_device()], Some(&shared_fs)).unwrap_err();
    assert!(matches!(error, PlanError::MountName(_)));
    assert_eq!(error.message(), "manifest URI has no name");

    let mut unknown = spec(
        "workspace",
        Some(&DECLARATION.replace("workspace-v1", "workspace-v3")),
    );
    assert!(matches!(
        build(&mut unknown, vec![raw_device()], Some(&shared_fs)),
        Err(PlanError::NameNotLookedUp(_))
    ));

    let mut taken = spec("workspace", Some(DECLARATION));
    taken.mounts = Some(vec![Mount {
        destination: "/workspace/".to_string(),
        typ: None,
        source: None,
        options: None,
    }]);
    let error = build(&mut taken, vec![raw_device()], Some(&shared_fs)).unwrap_err();
    assert_eq!(
        error.message(),
        "confidential volume \"workspace\" collides with existing mount destination \"/workspace\""
    );

    let mut spec = spec("workspace", Some(DECLARATION));
    let plan = build(&mut spec, vec![raw_device()], Some(&shared_fs)).unwrap();
    spec.linux = Some(Linux { devices: None });
    assert!(matches!(
        plan.consume_devices(&mut spec, vec![raw_device()]),
        Err(PlanError::OciDeviceNotConsumedOnce)
    ));
}

#[test]
fn planned_storage_lies_below_the_plaintext_root() {
    let mut spec = spec("workspace", Some(DECLARATION));
    let plan = build(&mut spec, vec![raw_device()], Some(&disabled_shared_fs())).unwrap();
    assert_eq!(
        plan.storages[0].mount_point,
        format!("{KATA_CONFIDENTIAL_STORAGE_MOUNT_ROOT}/workspace-v1")
    );
    for mount in &plan.mounts {
        assert_eq!(
            mount.source.as_ref(),
            Some(&plan.storages[0].mount_point)
        );
    }
}

#[test]
fn ordinary_oci_devices_survive_consumption() {
    let mut spec = spec("workspace", Some(DECLARATION));
    let mut other = block_device("/dev/ordinary");
    other.minor = 2;
    spec.linux
        .as_mut()
        .unwrap()
        .devices
        .as_mut()
        .unwrap()
        .push(other);
    let plan = build(&mut spec, vec![raw_device()], Some(&disabled_shared_fs())).unwrap();
    plan.consume_devices(&mut spec, vec![raw_device()]).unwrap();
    let devices = spec.linux.unwrap().devices.unwrap();
    assert_eq!(devices.len(), 1);
    assert_eq!(devices[0].path, "/dev/ordinary");
}

#[test]
fn text_maps_keep_their_keys_in_order() {
    let mut map = TextMap::new();
    for (key, value) in [("b", 1), ("a", 2), ("c", 3), ("b", 4)] {
        map.insert(key.to_string(), value);
    }
    assert_eq!(map.len(), 3);
    assert_eq!(
        (0..3).map(|i| map.key_at(i).as_str()).collect::<Vec<_>>(),
        ["a", "b", "c"]
    );
    assert_eq!(map.get("b"), Some(&4));
    assert_eq!(map.remove("b"), Some(4));
    assert!(!map.contains_key("b"));
    assert!(!map.is_empty());
}
