//! Block storage of the guest: driver options, device lookup and what is done to mount it.

use nix::sys::stat::{major, minor};
use vstd::prelude::*;

use crate::initdata::{is_canonical, is_canonical_uuid, WorkspaceStorageKey};
use crate::names::{
    DRIVER_BLK_CCW_TYPE, DRIVER_BLK_MMIO_TYPE, DRIVER_BLK_PCI_TYPE, DRIVER_NVDIMM_TYPE,
    DRIVER_SCSI_TYPE, KATA_BLOCK_VOLUME_CREATE_FS,
};
use crate::text::{
    concat3, decimal, decimal_text, has_prefix, join_texts, joined, lemma_decimal_has_digits_only,
    lemma_decimal_injective, lemma_split_first, list_contains, lists_text, same_text, split_first,
    split_text_once, starts_with, strip_prefix, texts,
};
use crate::types::{optional_text, Storage};

verus! {

pub const EPHEMERAL_ENCRYPTION_DRIVER_OPTION: &'static str = "encryption_key=ephemeral";

pub const CONFIDENTIAL_STORAGE_DRIVER_OPTION_PREFIX: &'static str = "io.codewire.storage.";

pub const CONFIDENTIAL_STORAGE_ENCRYPTION_KEY: &'static str = "io.codewire.storage.encryption";

pub const CONFIDENTIAL_STORAGE_SOURCE_KEY: &'static str = "io.codewire.storage.source";

pub const CONFIDENTIAL_STORAGE_KEY_URI_KEY: &'static str = "io.codewire.storage.key-uri";

pub const CONFIDENTIAL_STORAGE_FILESYSTEM_KEY: &'static str = "io.codewire.storage.filesystem";

pub const CONFIDENTIAL_STORAGE_GROW_KEY: &'static str = "io.codewire.storage.grow";

pub const CONFIDENTIAL_STORAGE_KEY_URI_PREFIX: &'static str =
    "kbs:///default/codewire-workspace-luks/";

pub const MKFS_EXT4: &'static str = "mkfs.ext4";

/// The bits of a file mode that mark a block device.
pub const S_IFBLK: u32 = 0o060000;

/// Why block storage is refused.
#[derive(Debug)]
pub enum BlockError {
    /// A confidential storage option has no value.
    MalformedOption,
    /// A confidential storage option is not known.
    UnsupportedOption,
    /// A confidential storage option stands twice.
    DuplicateOption,
    /// Only some of the confidential storage options are there.
    IncompleteOptions,
    /// A confidential storage option has a value that is not supported.
    InvalidValue,
    /// The key URI does not name a workspace key.
    InvalidKeyUri,
    /// The key URI does not end in a canonical UUID.
    InvalidKeyUriUuid,
    /// No key ID has been measured.
    MissingClaim,
    /// The key URI names another key than the measured one.
    ClaimMismatch,
    /// Confidential storage is asked for together with a filesystem of the host's making.
    ConflictingOptions,
    /// Ephemeral encryption is asked for without filesystem creation.
    EncryptionWithoutFilesystem,
    /// The filesystem cannot be created.
    UnsupportedFilesystem(String),
    /// The source is not a block device.
    InvalidDevice(String),
    /// The filesystem could not be created.
    FilesystemCreation { source: String, status: String, stdout: String, stderr: String },
}

impl BlockError {
    /// The text of the message for this error.
    pub open spec fn text(&self) -> Seq<char> {
        match self {
            BlockError::MalformedOption => "malformed confidential storage driver option"@,
            BlockError::UnsupportedOption => "unsupported confidential storage driver option"@,
            BlockError::DuplicateOption => "duplicate confidential storage driver option"@,
            BlockError::IncompleteOptions => "incomplete confidential storage driver options"@,
            BlockError::InvalidValue => "invalid confidential storage driver option value"@,
            BlockError::InvalidKeyUri => "invalid confidential storage key URI"@,
            BlockError::InvalidKeyUriUuid => "invalid confidential storage key URI UUID"@,
            BlockError::MissingClaim => "missing measured confidential storage key ID claim"@,
            BlockError::ClaimMismatch =>
                "confidential storage key URI does not match measured init-data claim"@,
            BlockError::ConflictingOptions =>
                "confidential storage cannot be combined with ephemeral encryption or host-requested filesystem creation"@,
            BlockError::EncryptionWithoutFilesystem => EPHEMERAL_ENCRYPTION_DRIVER_OPTION@
                + " requires "@ + KATA_BLOCK_VOLUME_CREATE_FS@ + " for block storage"@,
            BlockError::UnsupportedFilesystem(fstype) => "creating filesystem "@ + fstype@
                + " for block storage is unsupported"@,
            BlockError::InvalidDevice(source) => "Invalid device "@ + source@,
            BlockError::FilesystemCreation { source, status, stdout, stderr } => "mkfs.ext4 failed for "@
                + source@ + ": status="@ + status@ + ", stdout="@ + stdout@ + ", stderr="@
                + stderr@,
        }
    }

    /// The message for this error.
    pub fn message(&self) -> (message: String)
        ensures
            message@ == self.text(),
    {
        match self {
            BlockError::MalformedOption => {
                "malformed confidential storage driver option".to_owned()
            },
            BlockError::UnsupportedOption => {
                "unsupported confidential storage driver option".to_owned()
            },
            BlockError::DuplicateOption => {
                "duplicate confidential storage driver option".to_owned()
            },
            BlockError::IncompleteOptions => {
                "incomplete confidential storage driver options".to_owned()
            },
            BlockError::InvalidValue => {
                "invalid confidential storage driver option value".to_owned()
            },
            BlockError::InvalidKeyUri => "invalid confidential storage key URI".to_owned(),
            BlockError::InvalidKeyUriUuid => "invalid confidential storage key URI UUID".to_owned(),
            BlockError::MissingClaim => {
                "missing measured confidential storage key ID claim".to_owned()
            },
            BlockError::ClaimMismatch => {
                "confidential storage key URI does not match measured init-data claim".to_owned()
            },
            BlockError::ConflictingOptions => {
                "confidential storage cannot be combined with ephemeral encryption or host-requested filesystem creation".to_owned()
            },
            BlockError::EncryptionWithoutFilesystem => {
                let mut text = EPHEMERAL_ENCRYPTION_DRIVER_OPTION.to_owned();
                text.append(" requires ");
                text.append(KATA_BLOCK_VOLUME_CREATE_FS);
                text.append(" for block storage");
                text
            },
            BlockError::UnsupportedFilesystem(fstype) => {
                let mut text = "creating filesystem ".to_owned();
                text.append(fstype.as_str());
                text.append(" for block storage is unsupported");
                text
            },
            BlockError::InvalidDevice(source) => {
                let mut text = "Invalid device ".to_owned();
                text.append(source.as_str());
                text
            },
            BlockError::FilesystemCreation { source, status, stdout, stderr } => {
                let mut text = "mkfs.ext4 failed for ".to_owned();
                text.append(source.as_str());
                text.append(": status=");
                text.append(status.as_str());
                text.append(", stdout=");
                text.append(stdout.as_str());
                text.append(", stderr=");
                text.append(stderr.as_str());
                text
            },
        }
    }
}

/// What the driver options of a block storage ask for.
#[derive(Debug, PartialEq, Eq)]
pub struct BlockStorageDriverOptions {
    pub has_ephemeral_encryption: bool,
    pub should_create_filesystem: bool,
    pub confidential_storage: Option<ConfidentialStorageDriverOptions>,
}

/// The confidential part of the driver options.
#[derive(Debug, PartialEq, Eq)]
pub struct ConfidentialStorageDriverOptions {
    pub key_uri: String,
}

/// Whether a driver option belongs to confidential storage.
pub open spec fn is_confidential_option(option: Seq<char>) -> bool {
    has_prefix(option, CONFIDENTIAL_STORAGE_DRIVER_OPTION_PREFIX@)
}

/// Whether a key is one of the five of confidential storage.
pub open spec fn is_confidential_key(key: Seq<char>) -> bool {
    ||| key == CONFIDENTIAL_STORAGE_ENCRYPTION_KEY@
    ||| key == CONFIDENTIAL_STORAGE_SOURCE_KEY@
    ||| key == CONFIDENTIAL_STORAGE_KEY_URI_KEY@
    ||| key == CONFIDENTIAL_STORAGE_FILESYSTEM_KEY@
    ||| key == CONFIDENTIAL_STORAGE_GROW_KEY@
}

/// The value that confidential storage options give to `key`.
pub open spec fn option_value(options: Seq<Seq<char>>, key: Seq<char>) -> Option<Seq<char>>
    decreases options.len(),
{
    if options.len() == 0 {
        None
    } else if is_confidential_option(options.last()) {
        match split_first(options.last(), '=') {
            Some(parts) => if parts.0 == key {
                Some(parts.1)
            } else {
                option_value(options.drop_last(), key)
            },
            None => option_value(options.drop_last(), key),
        }
    } else {
        option_value(options.drop_last(), key)
    }
}

/// What is wrong with the option at a place, among those before it.
pub open spec fn option_fault(options: Seq<Seq<char>>, place: int) -> Option<BlockError> {
    if !is_confidential_option(options[place]) {
        None
    } else {
        match split_first(options[place], '=') {
            None => Some(BlockError::MalformedOption),
            Some(parts) => if !is_confidential_key(parts.0) {
                Some(BlockError::UnsupportedOption)
            } else if option_value(options.take(place), parts.0) is Some {
                Some(BlockError::DuplicateOption)
            } else {
                None
            },
        }
    }
}

/// The first fault of the options from a place on.
pub open spec fn options_fault(options: Seq<Seq<char>>, from: int) -> Option<BlockError>
    decreases options.len() - from,
{
    if from < 0 || from >= options.len() {
        None
    } else {
        match option_fault(options, from) {
            Some(error) => Some(error),
            None => options_fault(options, from + 1),
        }
    }
}

/// Whether the options give no value to any key of confidential storage.
pub open spec fn asks_nothing_confidential(options: Seq<Seq<char>>) -> bool {
    &&& option_value(options, CONFIDENTIAL_STORAGE_ENCRYPTION_KEY@) is None
    &&& option_value(options, CONFIDENTIAL_STORAGE_SOURCE_KEY@) is None
    &&& option_value(options, CONFIDENTIAL_STORAGE_KEY_URI_KEY@) is None
    &&& option_value(options, CONFIDENTIAL_STORAGE_FILESYSTEM_KEY@) is None
    &&& option_value(options, CONFIDENTIAL_STORAGE_GROW_KEY@) is None
}

/// Whether the options give a value to every key of confidential storage.
pub open spec fn asks_all_confidential(options: Seq<Seq<char>>) -> bool {
    &&& option_value(options, CONFIDENTIAL_STORAGE_ENCRYPTION_KEY@) is Some
    &&& option_value(options, CONFIDENTIAL_STORAGE_SOURCE_KEY@) is Some
    &&& option_value(options, CONFIDENTIAL_STORAGE_KEY_URI_KEY@) is Some
    &&& option_value(options, CONFIDENTIAL_STORAGE_FILESYSTEM_KEY@) is Some
    &&& option_value(options, CONFIDENTIAL_STORAGE_GROW_KEY@) is Some
}

/// Whether the filesystem and the fixed options have the values that are supported.
pub open spec fn has_supported_values(fstype: Seq<char>, options: Seq<Seq<char>>) -> bool {
    &&& fstype == "ext4"@
    &&& option_value(options, CONFIDENTIAL_STORAGE_ENCRYPTION_KEY@) == Some("luks2"@)
    &&& option_value(options, CONFIDENTIAL_STORAGE_SOURCE_KEY@) == Some("auto"@)
    &&& option_value(options, CONFIDENTIAL_STORAGE_FILESYSTEM_KEY@) == Some("ext4"@)
    &&& option_value(options, CONFIDENTIAL_STORAGE_GROW_KEY@) == Some("true"@)
}

/// The key URI that names the workspace key with a given ID.
pub open spec fn key_uri_of(key_id: Seq<char>) -> Seq<char> {
    CONFIDENTIAL_STORAGE_KEY_URI_PREFIX@ + key_id
}

/// What is wrong with a key URI, given the measured key ID.
pub open spec fn key_uri_fault(uri: Seq<char>, claim: Option<Seq<char>>) -> Option<BlockError> {
    let key_id = uri.skip(CONFIDENTIAL_STORAGE_KEY_URI_PREFIX@.len() as int);
    if !has_prefix(uri, CONFIDENTIAL_STORAGE_KEY_URI_PREFIX@) {
        Some(BlockError::InvalidKeyUri)
    } else if !is_canonical(key_id) {
        Some(BlockError::InvalidKeyUriUuid)
    } else {
        match claim {
            None => Some(BlockError::MissingClaim),
            Some(measured) => if key_id != measured {
                Some(BlockError::ClaimMismatch)
            } else {
                None
            },
        }
    }
}

/// The key URI that driver options ask for, if any.
pub open spec fn requested_key_uri(
    fstype: Seq<char>,
    options: Seq<Seq<char>>,
    claim: Option<Seq<char>>,
) -> Result<Option<Seq<char>>, BlockError> {
    match options_fault(options, 0) {
        Some(error) => Err(error),
        None => if asks_nothing_confidential(options) {
            Ok(None)
        } else if !asks_all_confidential(options) {
            Err(BlockError::IncompleteOptions)
        } else if !has_supported_values(fstype, options) {
            Err(BlockError::InvalidValue)
        } else {
            let uri = option_value(options, CONFIDENTIAL_STORAGE_KEY_URI_KEY@)->0;
            match key_uri_fault(uri, claim) {
                Some(error) => Err(error),
                None => Ok(Some(uri)),
            }
        },
    }
}

/// The values of the confidential storage options that have been read.
struct ConfidentialOptionValues {
    encryption: Option<String>,
    source: Option<String>,
    key_uri: Option<String>,
    filesystem: Option<String>,
    grow: Option<String>,
}

impl ConfidentialOptionValues {
    spec fn reads(&self, options: Seq<Seq<char>>) -> bool {
        &&& optional_text(self.encryption) == option_value(
            options,
            CONFIDENTIAL_STORAGE_ENCRYPTION_KEY@,
        )
        &&& optional_text(self.source) == option_value(options, CONFIDENTIAL_STORAGE_SOURCE_KEY@)
        &&& optional_text(self.key_uri) == option_value(options, CONFIDENTIAL_STORAGE_KEY_URI_KEY@)
        &&& optional_text(self.filesystem) == option_value(
            options,
            CONFIDENTIAL_STORAGE_FILESYSTEM_KEY@,
        )
        &&& optional_text(self.grow) == option_value(options, CONFIDENTIAL_STORAGE_GROW_KEY@)
    }
}

/// The five keys of confidential storage differ from each other.
proof fn lemma_keys_differ()
    ensures
        CONFIDENTIAL_STORAGE_ENCRYPTION_KEY@ != CONFIDENTIAL_STORAGE_SOURCE_KEY@,
        CONFIDENTIAL_STORAGE_ENCRYPTION_KEY@ != CONFIDENTIAL_STORAGE_KEY_URI_KEY@,
        CONFIDENTIAL_STORAGE_ENCRYPTION_KEY@ != CONFIDENTIAL_STORAGE_FILESYSTEM_KEY@,
        CONFIDENTIAL_STORAGE_ENCRYPTION_KEY@ != CONFIDENTIAL_STORAGE_GROW_KEY@,
        CONFIDENTIAL_STORAGE_SOURCE_KEY@ != CONFIDENTIAL_STORAGE_KEY_URI_KEY@,
        CONFIDENTIAL_STORAGE_SOURCE_KEY@ != CONFIDENTIAL_STORAGE_FILESYSTEM_KEY@,
        CONFIDENTIAL_STORAGE_SOURCE_KEY@ != CONFIDENTIAL_STORAGE_GROW_KEY@,
        CONFIDENTIAL_STORAGE_KEY_URI_KEY@ != CONFIDENTIAL_STORAGE_FILESYSTEM_KEY@,
        CONFIDENTIAL_STORAGE_KEY_URI_KEY@ != CONFIDENTIAL_STORAGE_GROW_KEY@,
        CONFIDENTIAL_STORAGE_FILESYSTEM_KEY@ != CONFIDENTIAL_STORAGE_GROW_KEY@,
{
    reveal_strlit("io.codewire.storage.encryption");
    reveal_strlit("io.codewire.storage.source");
    reveal_strlit("io.codewire.storage.key-uri");
    reveal_strlit("io.codewire.storage.filesystem");
    reveal_strlit("io.codewire.storage.grow");
    assert(CONFIDENTIAL_STORAGE_ENCRYPTION_KEY@[20] == 'e');
    assert(CONFIDENTIAL_STORAGE_SOURCE_KEY@[20] == 's');
    assert(CONFIDENTIAL_STORAGE_KEY_URI_KEY@[20] == 'k');
    assert(CONFIDENTIAL_STORAGE_FILESYSTEM_KEY@[20] == 'f');
    assert(CONFIDENTIAL_STORAGE_GROW_KEY@[20] == 'g');
}

/// Whether an optional text is a given one.
fn has_value(text: &Option<String>, value: &str) -> (result: bool)
    ensures
        result == (optional_text(*text) == Some(value@)),
{
    match text {
        Some(text) => same_text(text.as_str(), value),
        None => false,
    }
}

fn read_confidential_options(options: &Vec<String>) -> (result: Result<
    ConfidentialOptionValues,
    BlockError,
>)
    ensures
        match options_fault(texts(options@), 0) {
            Some(error) => result == Err::<ConfidentialOptionValues, _>(error),
            None => result matches Ok(values) && values.reads(texts(options@)),
        },
{
    let mut values = ConfidentialOptionValues {
        encryption: None,
        source: None,
        key_uri: None,
        filesystem: None,
        grow: None,
    };
    let ghost all = texts(options@);
    let mut i: usize = 0;
    assert(all.take(0) =~= Seq::<Seq<char>>::empty());
    while i < options.len()
        invariant
            i <= options.len(),
            all == texts(options@),
            values.reads(all.take(i as int)),
            options_fault(all, 0) == options_fault(all, i as int),
        decreases options.len() - i,
    {
        proof {
            lemma_keys_differ();
            assert(all.take(i + 1).drop_last() =~= all.take(i as int));
            assert(all.take(i + 1).last() == options@[i as int]@);
        }
        let option = options[i].as_str();
        if starts_with(option, CONFIDENTIAL_STORAGE_DRIVER_OPTION_PREFIX) {
            let (key, value) = match split_text_once(option, '=') {
                Some(parts) => parts,
                None => {
                    return Err(BlockError::MalformedOption);
                },
            };
            if same_text(key.as_str(), CONFIDENTIAL_STORAGE_ENCRYPTION_KEY) {
                if values.encryption.is_some() {
                    return Err(BlockError::DuplicateOption);
                }
                values.encryption = Some(value);
            } else if same_text(key.as_str(), CONFIDENTIAL_STORAGE_SOURCE_KEY) {
                if values.source.is_some() {
                    return Err(BlockError::DuplicateOption);
                }
                values.source = Some(value);
            } else if same_text(key.as_str(), CONFIDENTIAL_STORAGE_KEY_URI_KEY) {
                if values.key_uri.is_some() {
                    return Err(BlockError::DuplicateOption);
                }
                values.key_uri = Some(value);
            } else if same_text(key.as_str(), CONFIDENTIAL_STORAGE_FILESYSTEM_KEY) {
                if values.filesystem.is_some() {
                    return Err(BlockError::DuplicateOption);
                }
                values.filesystem = Some(value);
            } else if same_text(key.as_str(), CONFIDENTIAL_STORAGE_GROW_KEY) {
                if values.grow.is_some() {
                    return Err(BlockError::DuplicateOption);
                }
                values.grow = Some(value);
            } else {
                return Err(BlockError::UnsupportedOption);
            }
        }
        i = i + 1;
    }
    assert(all.take(options@.len() as int) =~= all);
    Ok(values)
}

/// Reads the confidential storage options of a block storage, which must name the measured key.
pub fn confidential_storage_driver_options(
    storage: &Storage,
    initdata_key_id: Option<&str>,
) -> (result: Result<Option<ConfidentialStorageDriverOptions>, BlockError>)
    ensures
        confidential_outcome(
            result,
            requested_key_uri(
                storage.fstype@,
                texts(storage.driver_options@),
                claim_text(initdata_key_id),
            ),
        ),
{
    let values = read_confidential_options(&storage.driver_options)?;
    if values.encryption.is_none() && values.source.is_none() && values.key_uri.is_none()
        && values.filesystem.is_none() && values.grow.is_none() {
        return Ok(None);
    }
    let key_uri = match values.key_uri {
        Some(key_uri) => key_uri,
        None => {
            return Err(BlockError::IncompleteOptions);
        },
    };
    if values.encryption.is_none() || values.source.is_none() || values.filesystem.is_none()
        || values.grow.is_none() {
        return Err(BlockError::IncompleteOptions);
    }
    if !same_text(storage.fstype.as_str(), "ext4") || !has_value(&values.encryption, "luks2")
        || !has_value(&values.source, "auto") || !has_value(&values.filesystem, "ext4")
        || !has_value(&values.grow, "true") {
        return Err(BlockError::InvalidValue);
    }
    let key_id = match strip_prefix(key_uri.as_str(), CONFIDENTIAL_STORAGE_KEY_URI_PREFIX) {
        Some(key_id) => key_id,
        None => {
            return Err(BlockError::InvalidKeyUri);
        },
    };
    if !is_canonical_uuid(key_id.as_str()) {
        return Err(BlockError::InvalidKeyUriUuid);
    }
    match initdata_key_id {
        None => Err(BlockError::MissingClaim),
        Some(measured) => {
            if !same_text(key_id.as_str(), measured) {
                return Err(BlockError::ClaimMismatch);
            }
            Ok(Some(ConfidentialStorageDriverOptions { key_uri }))
        },
    }
}

/// The contents of a measured key ID.
pub open spec fn claim_text(claim: Option<&str>) -> Option<Seq<char>> {
    match claim {
        Some(claim) => Some(claim@),
        None => None,
    }
}

/// Whether a result is the expected key URI or the expected error.
pub open spec fn confidential_outcome(
    result: Result<Option<ConfidentialStorageDriverOptions>, BlockError>,
    expected: Result<Option<Seq<char>>, BlockError>,
) -> bool {
    match expected {
        Ok(None) => result matches Ok(None),
        Ok(Some(uri)) => result matches Ok(Some(options)) && options.key_uri@ == uri,
        Err(error) => result == Err::<Option<ConfidentialStorageDriverOptions>, _>(error),
    }
}

/// Whether the driver options ask for a new filesystem.
pub fn should_create_block_filesystem(storage: &Storage) -> (result: bool)
    ensures
        result == lists_text(storage.driver_options@, KATA_BLOCK_VOLUME_CREATE_FS@),
{
    list_contains(&storage.driver_options, KATA_BLOCK_VOLUME_CREATE_FS)
}

/// What the driver options of a storage amount to: whether they ask for ephemeral encryption and
/// for a new filesystem, and the key URI of confidential storage.
pub open spec fn requested_options(storage: Storage, claim: Option<Seq<char>>) -> Result<
    (bool, bool, Option<Seq<char>>),
    BlockError,
> {
    let encrypt = lists_text(storage.driver_options@, EPHEMERAL_ENCRYPTION_DRIVER_OPTION@);
    let create = lists_text(storage.driver_options@, KATA_BLOCK_VOLUME_CREATE_FS@);
    match requested_key_uri(storage.fstype@, texts(storage.driver_options@), claim) {
        Err(error) => Err(error),
        Ok(uri) => if uri is Some && (encrypt || create) {
            Err(BlockError::ConflictingOptions)
        } else if encrypt && !create {
            Err(BlockError::EncryptionWithoutFilesystem)
        } else {
            Ok((encrypt, create, uri))
        },
    }
}

/// Whether a result is the expected options or the expected error.
pub open spec fn options_outcome(
    result: Result<BlockStorageDriverOptions, BlockError>,
    expected: Result<(bool, bool, Option<Seq<char>>), BlockError>,
) -> bool {
    match expected {
        Ok(wanted) => {
            &&& result matches Ok(options)
            &&& options.has_ephemeral_encryption == wanted.0
            &&& options.should_create_filesystem == wanted.1
            &&& match options.confidential_storage {
                Some(confidential) => wanted.2 == Some(confidential.key_uri@),
                None => wanted.2 is None,
            }
        },
        Err(error) => result == Err::<BlockStorageDriverOptions, _>(error),
    }
}

/// Reads the driver options of a block storage, given the measured key ID.
pub fn block_storage_driver_options_with_claim(
    storage: &Storage,
    initdata_key_id: Option<&str>,
) -> (result: Result<BlockStorageDriverOptions, BlockError>)
    ensures
        options_outcome(result, requested_options(*storage, claim_text(initdata_key_id))),
{
    let has_ephemeral_encryption = list_contains(
        &storage.driver_options,
        EPHEMERAL_ENCRYPTION_DRIVER_OPTION,
    );
    let should_create_filesystem = should_create_block_filesystem(storage);
    let confidential_storage = match confidential_storage_driver_options(
        storage,
        initdata_key_id,
    ) {
        Ok(confidential_storage) => confidential_storage,
        Err(error) => {
            return Err(error);
        },
    };
    if confidential_storage.is_some() && (has_ephemeral_encryption || should_create_filesystem) {
        return Err(BlockError::ConflictingOptions);
    }
    if has_ephemeral_encryption && !should_create_filesystem {
        return Err(BlockError::EncryptionWithoutFilesystem);
    }
    Ok(
        BlockStorageDriverOptions {
            has_ephemeral_encryption,
            should_create_filesystem,
            confidential_storage,
        },
    )
}

/// Reads the driver options of a block storage, given the slot of the measured key ID.
pub fn block_storage_driver_options(storage: &Storage, key: &WorkspaceStorageKey) -> (result:
    Result<BlockStorageDriverOptions, BlockError>)
    ensures
        options_outcome(result, requested_options(*storage, optional_text(key.id))),
{
    match key.workspace_storage_key_id() {
        Some(id) => block_storage_driver_options_with_claim(storage, Some(id.as_str())),
        None => block_storage_driver_options_with_claim(storage, None),
    }
}

/// Confidential storage is bound to the measured key: where driver options are accepted and ask
/// for it, the key URI is that of the measured key ID, which is a canonical UUID, and the options
/// ask for no filesystem of the host's making.
pub proof fn law_confidential_storage_is_bound_to_the_measured_key(
    storage: Storage,
    claim: Option<Seq<char>>,
)
    requires
        requested_options(storage, claim) matches Ok(wanted) && wanted.2 is Some,
    ensures
        claim matches Some(key_id) && {
            &&& is_canonical(key_id)
            &&& requested_options(storage, claim) == Ok::<_, BlockError>(
                (false, false, Some(key_uri_of(key_id))),
            )
        },
{
    let uri = (requested_options(storage, claim)->Ok_0).2->0;
    assert(uri =~= key_uri_of(uri.skip(CONFIDENTIAL_STORAGE_KEY_URI_PREFIX@.len() as int)));
}

/// nix's `major` picks bits 44 to 63 and 8 to 19 of a Linux device ID.
pub assume_specification[ major ](dev: libc::dev_t) -> (number: u64)
    ensures
        number == major_of(dev),
;

/// nix's `minor` picks bits 20 to 43 and 0 to 7 of a Linux device ID.
pub assume_specification[ minor ](dev: libc::dev_t) -> (number: u64)
    ensures
        number == minor_of(dev),
;

/// The major number of a device ID.
pub open spec fn major_of(dev: u64) -> u64 {
    ((dev >> 32) & 0xffff_f000) | ((dev >> 8) & 0x0000_0fff)
}

/// The minor number of a device ID.
pub open spec fn minor_of(dev: u64) -> u64 {
    ((dev >> 12) & 0xffff_ff00) | (dev & 0x0000_00ff)
}

/// The text of a device ID: its major and its minor number.
pub open spec fn device_number(dev: u64) -> Seq<char> {
    decimal(major_of(dev) as nat) + ":"@ + decimal(minor_of(dev) as nat)
}

/// The text of a device ID: its major and its minor number.
pub fn get_device_number(dev_id: u64) -> (text: String)
    ensures
        text@ == device_number(dev_id),
{
    concat3(decimal_text(major(dev_id)).as_str(), ":", decimal_text(minor(dev_id)).as_str())
}

/// The text of a device ID determines the device.
pub proof fn law_device_number_identifies_the_device(left: u64, right: u64)
    requires
        device_number(left) == device_number(right),
    ensures
        left == right,
{
    reveal_strlit(":");
    let lefts = (decimal(major_of(left) as nat), decimal(minor_of(left) as nat));
    let rights = (decimal(major_of(right) as nat), decimal(minor_of(right) as nat));
    lemma_decimal_has_digits_only(major_of(left) as nat);
    lemma_decimal_has_digits_only(major_of(right) as nat);
    let whole = device_number(left);
    assert(whole[lefts.0.len() as int] == ':' && whole[rights.0.len() as int] == ':');
    if lefts.0.len() < rights.0.len() {
        assert(whole[lefts.0.len() as int] == rights.0[lefts.0.len() as int]);
    }
    if rights.0.len() < lefts.0.len() {
        assert(whole[rights.0.len() as int] == lefts.0[rights.0.len() as int]);
    }
    assert(lefts.0 =~= whole.take(lefts.0.len() as int));
    assert(rights.0 =~= whole.take(lefts.0.len() as int));
    assert(lefts.1 =~= whole.skip(lefts.0.len() as int + 1));
    assert(rights.1 =~= whole.skip(lefts.0.len() as int + 1));
    lemma_decimal_injective(major_of(left) as nat, major_of(right) as nat);
    lemma_decimal_injective(minor_of(left) as nat, minor_of(right) as nat);
    assert(left == right) by (bit_vector)
        requires
            major_of(left) == major_of(right),
            minor_of(left) == minor_of(right),
    ;
}

/// The options with which an ext4 filesystem is made for ephemeral block storage.
pub open spec fn mkfs_option_texts() -> Seq<Seq<char>> {
    seq!["-O"@, "^has_journal"@, "-m"@, "0"@, "-i"@, "163840"@, "-I"@, "128"@]
}

/// The options with which an ext4 filesystem is made for ephemeral block storage.
pub fn mkfs_options() -> (options: Vec<String>)
    ensures
        texts(options@) == mkfs_option_texts(),
{
    let mut options: Vec<String> = Vec::new();
    options.push("-O".to_owned());
    options.push("^has_journal".to_owned());
    options.push("-m".to_owned());
    options.push("0".to_owned());
    options.push("-i".to_owned());
    options.push("163840".to_owned());
    options.push("-I".to_owned());
    options.push("128".to_owned());
    assert(texts(options@) =~= mkfs_option_texts());
    options
}

/// A step of making a block storage available at its mount point.
#[derive(Debug)]
pub enum BlockAction {
    /// Have the data hub open the device with a key and mount it.
    ConfidentialMount {
        volume_type: String,
        device_number: String,
        mount_point: String,
        key_uri: String,
    },
    /// Have the data hub encrypt the device with a throw-away key and mount it.
    SecureMount {
        volume_type: String,
        device_number: String,
        encryption: String,
        mount_point: String,
        mkfs_opts: String,
    },
    /// Run a program with arguments.
    MakeFilesystem { program: String, arguments: Vec<String> },
    /// Mount the source at the mount point.
    Mount,
    /// Change the ownership of what is mounted.
    SetOwnership,
}

/// The contents of a [`BlockAction`].
#[verifier::ext_equal]
pub enum BlockActionView {
    ConfidentialMount {
        volume_type: Seq<char>,
        device_number: Seq<char>,
        mount_point: Seq<char>,
        key_uri: Seq<char>,
    },
    SecureMount {
        volume_type: Seq<char>,
        device_number: Seq<char>,
        encryption: Seq<char>,
        mount_point: Seq<char>,
        mkfs_opts: Seq<char>,
    },
    MakeFilesystem { program: Seq<char>, arguments: Seq<Seq<char>> },
    Mount,
    SetOwnership,
}

impl View for BlockAction {
    type V = BlockActionView;

    open spec fn view(&self) -> BlockActionView {
        match self {
            BlockAction::ConfidentialMount { volume_type, device_number, mount_point, key_uri } =>
                BlockActionView::ConfidentialMount {
                    volume_type: volume_type@,
                    device_number: device_number@,
                    mount_point: mount_point@,
                    key_uri: key_uri@,
                },
            BlockAction::SecureMount {
                volume_type,
                device_number,
                encryption,
                mount_point,
                mkfs_opts,
            } => BlockActionView::SecureMount {
                volume_type: volume_type@,
                device_number: device_number@,
                encryption: encryption@,
                mount_point: mount_point@,
                mkfs_opts: mkfs_opts@,
            },
            BlockAction::MakeFilesystem { program, arguments } => BlockActionView::MakeFilesystem {
                program: program@,
                arguments: texts(arguments@),
            },
            BlockAction::Mount => BlockActionView::Mount,
            BlockAction::SetOwnership => BlockActionView::SetOwnership,
        }
    }
}

/// The contents of a list of actions.
pub open spec fn action_views(actions: Seq<BlockAction>) -> Seq<BlockActionView> {
    Seq::new(actions.len(), |i: int| actions[i]@)
}

/// The command that makes an ext4 filesystem on `source`.
pub open spec fn mkfs_command(source: Seq<char>) -> BlockActionView {
    BlockActionView::MakeFilesystem {
        program: MKFS_EXT4@,
        arguments: seq!["-F"@] + mkfs_option_texts() + seq![source],
    }
}

/// The command that makes an ext4 filesystem on `source`.
pub fn ensure_ext4_filesystem(source: &String) -> (action: BlockAction)
    ensures
        action@ == mkfs_command(source@),
{
    let mut arguments: Vec<String> = Vec::new();
    arguments.push("-F".to_owned());
    let mut options = mkfs_options();
    arguments.append(&mut options);
    arguments.push(source.clone());
    assert(texts(arguments@) =~= seq!["-F"@] + mkfs_option_texts() + seq![source@]);
    BlockAction::MakeFilesystem { program: MKFS_EXT4.to_owned(), arguments }
}

/// The command that makes the filesystem of a block storage.
pub fn ensure_block_filesystem(storage: &Storage) -> (result: Result<BlockAction, BlockError>)
    ensures
        if storage.fstype@ == "ext4"@ {
            result matches Ok(action) && action@ == mkfs_command(storage.source@)
        } else {
            result == Err::<BlockAction, _>(BlockError::UnsupportedFilesystem(storage.fstype))
        },
{
    if same_text(storage.fstype.as_str(), "ext4") {
        Ok(ensure_ext4_filesystem(&storage.source))
    } else {
        Err(BlockError::UnsupportedFilesystem(storage.fstype.clone()))
    }
}

/// What a finished run of the filesystem maker amounts to.
pub fn filesystem_outcome(
    source: &String,
    success: bool,
    status: String,
    stdout: String,
    stderr: String,
) -> (result: Result<(), BlockError>)
    ensures
        result == if success {
            Ok(())
        } else {
            Err(BlockError::FilesystemCreation { source: *source, status, stdout, stderr })
        },
{
    if success {
        Ok(())
    } else {
        Err(BlockError::FilesystemCreation { source: source.clone(), status, stdout, stderr })
    }
}

/// The steps that make a block storage available at its mount point.
pub open spec fn block_steps(
    storage: Storage,
    device_number: Seq<char>,
    claim: Option<Seq<char>>,
) -> Result<Seq<BlockActionView>, BlockError> {
    match requested_options(storage, claim) {
        Err(error) => Err(error),
        Ok((_, _, Some(uri))) => Ok(
            seq![
                BlockActionView::ConfidentialMount {
                    volume_type: "block-device"@,
                    device_number,
                    mount_point: storage.mount_point@,
                    key_uri: uri,
                },
                BlockActionView::SetOwnership,
            ],
        ),
        Ok((true, _, None)) => Ok(
            seq![
                BlockActionView::SecureMount {
                    volume_type: "block-device"@,
                    device_number,
                    encryption: "luks2"@,
                    mount_point: storage.mount_point@,
                    mkfs_opts: joined(mkfs_option_texts(), " "@),
                },
                BlockActionView::SetOwnership,
            ],
        ),
        Ok((false, create, None)) => if !create {
            Ok(seq![BlockActionView::Mount, BlockActionView::SetOwnership])
        } else if storage.fstype@ == "ext4"@ {
            Ok(
                seq![
                    mkfs_command(storage.source@),
                    BlockActionView::Mount,
                    BlockActionView::SetOwnership,
                ],
            )
        } else {
            Err(BlockError::UnsupportedFilesystem(storage.fstype))
        },
    }
}

/// The steps that make a block storage available at its mount point, which is then the path of
/// its device. They are taken in order until one fails.
pub fn handle_block_storage(
    storage: &Storage,
    dev_num: &String,
    key: &WorkspaceStorageKey,
) -> (result: Result<Vec<BlockAction>, BlockError>)
    ensures
        match block_steps(*storage, dev_num@, optional_text(key.id)) {
            Ok(steps) => result matches Ok(actions) && action_views(actions@) == steps,
            Err(error) => result == Err::<Vec<BlockAction>, _>(error),
        },
{
    let options = match block_storage_driver_options(storage, key) {
        Ok(options) => options,
        Err(error) => {
            return Err(error);
        },
    };
    let mut actions: Vec<BlockAction> = Vec::new();
    match options.confidential_storage {
        Some(confidential_storage) => {
            actions.push(
                BlockAction::ConfidentialMount {
                    volume_type: "block-device".to_owned(),
                    device_number: dev_num.clone(),
                    mount_point: storage.mount_point.clone(),
                    key_uri: confidential_storage.key_uri,
                },
            );
        },
        None => {
            if options.has_ephemeral_encryption {
                let mkfs_opts = mkfs_options();
                actions.push(
                    BlockAction::SecureMount {
                        volume_type: "block-device".to_owned(),
                        device_number: dev_num.clone(),
                        encryption: "luks2".to_owned(),
                        mount_point: storage.mount_point.clone(),
                        mkfs_opts: join_texts(&mkfs_opts, " "),
                    },
                );
            } else {
                if options.should_create_filesystem {
                    match ensure_block_filesystem(storage) {
                        Ok(action) => {
                            actions.push(action);
                        },
                        Err(error) => {
                            return Err(error);
                        },
                    }
                }
                actions.push(BlockAction::Mount);
            }
        },
    }
    actions.push(BlockAction::SetOwnership);
    proof {
        let steps = block_steps(*storage, dev_num@, optional_text(key.id))->Ok_0;
        assert(action_views(actions@) =~= steps);
    }
    Ok(actions)
}

/// How the device of a block storage is found.
#[derive(Clone, Copy, Debug, PartialEq, Eq, Structural)]
pub enum DeviceLookup {
    /// The source is the device.
    Ready,
    /// The source is the device, once it has shown up on the MMIO bus.
    WaitForMmio,
    /// The source is the device node, which must be a block device.
    InspectNode,
    /// The source is a PCI path.
    ResolvePci,
    /// The source is a CCW device number.
    ResolveCcw,
    /// The source is a SCSI address.
    ResolveScsi,
    /// The source is the device, once it has shown up as persistent memory. It is mounted as it
    /// is, without regard to driver options.
    WaitForPmem,
}

/// Handles the storages of some drivers.
pub trait StorageHandler {
    /// The driver types that the handler manages.
    spec fn drivers(&self) -> Seq<Seq<char>>;

    /// How the handler finds the device of a source, given whether the source exists as a path.
    spec fn lookup(&self, source: Seq<char>, source_exists: bool) -> DeviceLookup;

    /// Return the driver types that the handler manages.
    fn driver_types(&self) -> (types: Vec<String>)
        ensures
            texts(types@) == self.drivers(),
    ;

    /// How the device of a storage is found, given whether its source exists as a path.
    fn create_device(&self, storage: &Storage, source_exists: bool) -> (lookup: DeviceLookup)
        ensures
            lookup == self.lookup(storage.source@, source_exists),
    ;
}

fn only(text: &str) -> (list: Vec<String>)
    ensures
        texts(list@) == seq![text@],
{
    let mut list: Vec<String> = Vec::new();
    list.push(text.to_owned());
    assert(texts(list@) =~= seq![text@]);
    list
}

#[derive(Debug)]
pub struct VirtioBlkMmioHandler {}

impl StorageHandler for VirtioBlkMmioHandler {
    open spec fn drivers(&self) -> Seq<Seq<char>> {
        seq![DRIVER_BLK_MMIO_TYPE@]
    }

    open spec fn lookup(&self, source: Seq<char>, source_exists: bool) -> DeviceLookup {
        if source_exists {
            DeviceLookup::Ready
        } else {
            DeviceLookup::WaitForMmio
        }
    }

    fn driver_types(&self) -> (types: Vec<String>) {
        only(DRIVER_BLK_MMIO_TYPE)
    }

    fn create_device(&self, storage: &Storage, source_exists: bool) -> (lookup: DeviceLookup) {
        if source_exists {
            DeviceLookup::Ready
        } else {
            DeviceLookup::WaitForMmio
        }
    }
}

#[derive(Debug)]
pub struct VirtioBlkPciHandler {}

impl StorageHandler for VirtioBlkPciHandler {
    open spec fn drivers(&self) -> Seq<Seq<char>> {
        seq![DRIVER_BLK_PCI_TYPE@]
    }

    open spec fn lookup(&self, source: Seq<char>, source_exists: bool) -> DeviceLookup {
        if has_prefix(source, "/dev"@) {
            DeviceLookup::InspectNode
        } else {
            DeviceLookup::ResolvePci
        }
    }

    fn driver_types(&self) -> (types: Vec<String>) {
        only(DRIVER_BLK_PCI_TYPE)
    }

    fn create_device(&self, storage: &Storage, source_exists: bool) -> (lookup: DeviceLookup) {
        if starts_with(storage.source.as_str(), "/dev") {
            DeviceLookup::InspectNode
        } else {
            DeviceLookup::ResolvePci
        }
    }
}

impl VirtioBlkPciHandler {
    /// Refuses a device node whose mode has none of the bits of a block device.
    pub fn check_node(&self, source: &String, mode: u32) -> (result: Result<(), BlockError>)
        ensures
            result == if mode & S_IFBLK == 0 {
                Err(BlockError::InvalidDevice(*source))
            } else {
                Ok(())
            },
    {
        if mode & S_IFBLK == 0 {
            return Err(BlockError::InvalidDevice(source.clone()));
        }
        Ok(())
    }
}

#[derive(Debug)]
pub struct VirtioBlkCcwHandler {}

impl StorageHandler for VirtioBlkCcwHandler {
    open spec fn drivers(&self) -> Seq<Seq<char>> {
        seq![DRIVER_BLK_CCW_TYPE@]
    }

    open spec fn lookup(&self, source: Seq<char>, source_exists: bool) -> DeviceLookup {
        DeviceLookup::ResolveCcw
    }

    fn driver_types(&self) -> (types: Vec<String>) {
        only(DRIVER_BLK_CCW_TYPE)
    }

    fn create_device(&self, storage: &Storage, source_exists: bool) -> (lookup: DeviceLookup) {
        DeviceLookup::ResolveCcw
    }
}

#[derive(Debug)]
pub struct ScsiHandler {}

impl StorageHandler for ScsiHandler {
    open spec fn drivers(&self) -> Seq<Seq<char>> {
        seq![DRIVER_SCSI_TYPE@]
    }

    open spec fn lookup(&self, source: Seq<char>, source_exists: bool) -> DeviceLookup {
        DeviceLookup::ResolveScsi
    }

    fn driver_types(&self) -> (types: Vec<String>) {
        only(DRIVER_SCSI_TYPE)
    }

    fn create_device(&self, storage: &Storage, source_exists: bool) -> (lookup: DeviceLookup) {
        DeviceLookup::ResolveScsi
    }
}

#[derive(Debug)]
pub struct PmemHandler {}

impl StorageHandler for PmemHandler {
    open spec fn drivers(&self) -> Seq<Seq<char>> {
        seq![DRIVER_NVDIMM_TYPE@]
    }

    open spec fn lookup(&self, source: Seq<char>, source_exists: bool) -> DeviceLookup {
        DeviceLookup::WaitForPmem
    }

    fn driver_types(&self) -> (types: Vec<String>) {
        only(DRIVER_NVDIMM_TYPE)
    }

    fn create_device(&self, storage: &Storage, source_exists: bool) -> (lookup: DeviceLookup) {
        DeviceLookup::WaitForPmem
    }
}

/// Once accepted, block storage is mounted exactly once and given to its group after that: the last
/// step sets the ownership and no other does, the step before it is the one that mounts, and at
/// most a filesystem is made before that.
pub proof fn law_block_storage_is_mounted_once_and_then_owned(
    storage: Storage,
    dev_num: String,
    key: WorkspaceStorageKey,
    actions: Vec<BlockAction>,
)
    requires
        call_ensures(handle_block_storage, (&storage, &dev_num, &key), Ok(actions)),
    ensures
        2 <= actions@.len() <= 3,
        actions@[actions@.len() - 1] is SetOwnership,
        forall|i: int|
            0 <= i < actions@.len() - 1 ==> !(#[trigger] actions@[i] is SetOwnership),
        ({
            let mount = actions@[actions@.len() - 2];
            mount is ConfidentialMount || mount is SecureMount || mount is Mount
        }),
        forall|i: int|
            0 <= i < actions@.len() - 2 ==> #[trigger] actions@[i] is MakeFilesystem,
{
    let steps = action_views(actions@);
    assert(steps.len() == actions@.len());
    assert forall|i: int| 0 <= i < actions@.len() implies steps[i] == (#[trigger] actions@[i])@ by {}
}

/// Whether a storage asks for confidential treatment through its driver options.
pub open spec fn names_confidential_option(storage: Storage) -> bool {
    exists|i: int|
        0 <= i < storage.driver_options@.len() && has_prefix(
            #[trigger] storage.driver_options@[i]@,
            "io.codewire.storage."@,
        )
}

proof fn lemma_options_fault(options: Seq<Seq<char>>, from: int)
    requires
        0 <= from <= options.len(),
    ensures
        options_fault(options, from) is None <==> forall|i: int|
            from <= i < options.len() ==> #[trigger] option_fault(options, i) is None,
    decreases options.len() - from,
{
    if from < options.len() {
        lemma_options_fault(options, from + 1);
        if options_fault(options, from) is None {
            assert forall|i: int| from <= i < options.len() implies (#[trigger] option_fault(
                options,
                i,
            )) is None by {
                if i > from {
                    assert(from + 1 <= i);
                }
            }
        }
    }
}

/// Whether an option gives a value to a key of confidential storage.
spec fn gives(option: Seq<char>, key: Seq<char>, value: Seq<char>) -> bool {
    is_confidential_option(option) && split_first(option, '=') == Some((key, value))
}

proof fn lemma_option_value(options: Seq<Seq<char>>, key: Seq<char>)
    ensures
        option_value(options, key) is Some ==> exists|i: int|
            0 <= i < options.len() && gives(
                #[trigger] options[i],
                key,
                option_value(options, key)->0,
            ),
        forall|i: int, value: Seq<char>|
            0 <= i < options.len() && #[trigger] gives(options[i], key, value) ==> option_value(
                options,
                key,
            ) is Some,
    decreases options.len(),
{
    if options.len() > 0 {
        let before = options.drop_last();
        lemma_option_value(before, key);
        if option_value(options, key) is Some {
            let value = option_value(options, key)->0;
            if gives(options.last(), key, value) {
                assert(gives(options[options.len() - 1], key, value));
            } else {
                let i = choose|i: int|
                    0 <= i < before.len() && gives(#[trigger] before[i], key, value);
                assert(gives(options[i], key, value));
            }
        }
        assert forall|i: int, value: Seq<char>|
            0 <= i < options.len() && #[trigger] gives(
                options[i],
                key,
                value,
            ) implies option_value(options, key) is Some by {
            if i < before.len() {
                assert(gives(before[i], key, value));
            }
        }
    }
}

proof fn lemma_keys_are_prefixed_and_plain()
    ensures
        has_prefix("io.codewire.storage.encryption"@, "io.codewire.storage."@),
        has_prefix("io.codewire.storage.source"@, "io.codewire.storage."@),
        has_prefix("io.codewire.storage.key-uri"@, "io.codewire.storage."@),
        has_prefix("io.codewire.storage.filesystem"@, "io.codewire.storage."@),
        has_prefix("io.codewire.storage.grow"@, "io.codewire.storage."@),
        !"io.codewire.storage.encryption"@.contains('='),
        !"io.codewire.storage.source"@.contains('='),
        !"io.codewire.storage.key-uri"@.contains('='),
        !"io.codewire.storage.filesystem"@.contains('='),
        !"io.codewire.storage.grow"@.contains('='),
        "="@ == seq!['='],
{
    reveal_strlit("io.codewire.storage.");
    reveal_strlit("io.codewire.storage.encryption");
    reveal_strlit("io.codewire.storage.source");
    reveal_strlit("io.codewire.storage.key-uri");
    reveal_strlit("io.codewire.storage.filesystem");
    reveal_strlit("io.codewire.storage.grow");
    reveal_strlit("=");
    let prefix = "io.codewire.storage."@;
    assert("io.codewire.storage.encryption"@.take(20) =~= prefix);
    assert("io.codewire.storage.source"@.take(20) =~= prefix);
    assert("io.codewire.storage.key-uri"@.take(20) =~= prefix);
    assert("io.codewire.storage.filesystem"@.take(20) =~= prefix);
    assert("io.codewire.storage.grow"@.take(20) =~= prefix);
    assert("="@ =~= seq!['=']);
}

proof fn lemma_option_text(option: Seq<char>, key: Seq<char>, value: Seq<char>)
    requires
        has_prefix(key, CONFIDENTIAL_STORAGE_DRIVER_OPTION_PREFIX@),
        !key.contains('='),
    ensures
        option == key + "="@ + value <==> gives(option, key, value),
{
    lemma_keys_are_prefixed_and_plain();
    lemma_split_first(option, '=');
    let prefix = CONFIDENTIAL_STORAGE_DRIVER_OPTION_PREFIX@;
    if option == key + "="@ + value {
        assert(option.take(prefix.len() as int) =~= key.take(prefix.len() as int));
        assert(option == key + seq!['='] + value);
    }
}

/// Whether a text stands at exactly one place of a list.
pub open spec fn stands_once(list: Seq<String>, text: Seq<char>) -> bool {
    exists|i: int|
        #![trigger list[i]]
        {
            &&& 0 <= i < list.len()
            &&& list[i]@ == text
            &&& forall|j: int| 0 <= j < list.len() && #[trigger] list[j]@ == text ==> j == i
        }
}

/// Whether driver options ask for the confidential volume of a key, and for nothing else that is
/// confidential: each of the five settings stands there once, with the one value that it may have.
pub open spec fn asks_for_the_volume_of(options: Seq<String>, key_id: Seq<char>) -> bool {
    let encryption = "io.codewire.storage.encryption"@ + "="@ + "luks2"@;
    let source = "io.codewire.storage.source"@ + "="@ + "auto"@;
    let key_uri = "io.codewire.storage.key-uri"@ + "="@ + (
    "kbs:///default/codewire-workspace-luks/"@ + key_id);
    let filesystem = "io.codewire.storage.filesystem"@ + "="@ + "ext4"@;
    let grow = "io.codewire.storage.grow"@ + "="@ + "true"@;
    &&& stands_once(options, encryption)
    &&& stands_once(options, source)
    &&& stands_once(options, key_uri)
    &&& stands_once(options, filesystem)
    &&& stands_once(options, grow)
    &&& forall|i: int|
        0 <= i < options.len() && has_prefix(
            #[trigger] options[i]@,
            "io.codewire.storage."@,
        ) ==> {
            ||| options[i]@ == encryption
            ||| options[i]@ == source
            ||| options[i]@ == key_uri
            ||| options[i]@ == filesystem
            ||| options[i]@ == grow
        }
}

proof fn lemma_no_confidential_option(storage: Storage)
    ensures
        !names_confidential_option(storage) ==> options_fault(
            texts(storage.driver_options@),
            0,
        ) is None && asks_nothing_confidential(texts(storage.driver_options@)),
        options_fault(texts(storage.driver_options@), 0) is None && asks_nothing_confidential(
            texts(storage.driver_options@),
        ) ==> !names_confidential_option(storage),
{
    let options = texts(storage.driver_options@);
    lemma_options_fault(options, 0);
    lemma_option_value(options, CONFIDENTIAL_STORAGE_ENCRYPTION_KEY@);
    lemma_option_value(options, CONFIDENTIAL_STORAGE_SOURCE_KEY@);
    lemma_option_value(options, CONFIDENTIAL_STORAGE_KEY_URI_KEY@);
    lemma_option_value(options, CONFIDENTIAL_STORAGE_FILESYSTEM_KEY@);
    lemma_option_value(options, CONFIDENTIAL_STORAGE_GROW_KEY@);
    assert forall|i: int| 0 <= i < options.len() implies #[trigger] options[i]
        == storage.driver_options@[i]@ by {}
    if !names_confidential_option(storage) {
        assert forall|i: int| 0 <= i < options.len() implies !is_confidential_option(
            #[trigger] options[i],
        ) by {
            assert(!has_prefix(storage.driver_options@[i]@, "io.codewire.storage."@));
        }
    }
    if names_confidential_option(storage) && options_fault(options, 0) is None {
        let i = choose|i: int|
            0 <= i < storage.driver_options@.len() && has_prefix(
                #[trigger] storage.driver_options@[i]@,
                "io.codewire.storage."@,
            );
        assert(option_fault(options, i) is None);
        let parts = split_first(options[i], '=')->0;
        assert(gives(options[i], parts.0, parts.1));
    }
}

/// A key with its value stands once among options without fault, as their text.
proof fn lemma_setting_stands_once(list: Seq<String>, key: Seq<char>, value: Seq<char>)
    requires
        has_prefix(key, CONFIDENTIAL_STORAGE_DRIVER_OPTION_PREFIX@),
        !key.contains('='),
        options_fault(texts(list), 0) is None,
        option_value(texts(list), key) is Some,
    ensures
        stands_once(list, key + "="@ + option_value(texts(list), key)->0),
        option_value(texts(list), key)->0 == value <==> stands_once(list, key + "="@ + value),
        forall|i: int, other: Seq<char>|
            0 <= i < list.len() && #[trigger] gives(list[i]@, key, other) ==> other
                == option_value(texts(list), key)->0,
{
    let options = texts(list);
    let found = option_value(options, key)->0;
    lemma_options_fault(options, 0);
    lemma_option_value(options, key);
    let at = choose|i: int| 0 <= i < options.len() && gives(#[trigger] options[i], key, found);
    assert forall|i: int, other: Seq<char>|
        0 <= i < list.len() && #[trigger] gives(list[i]@, key, other) implies i == at && other
        == found by {
        assert(options[i] == list[i]@);
        if i < at {
            let taken = options.take(at);
            lemma_option_value(taken, key);
            assert(gives(taken[i], key, other));
            assert(option_fault(options, at) is None);
        } else if at < i {
            let taken = options.take(i);
            lemma_option_value(taken, key);
            assert(gives(taken[at], key, found));
            assert(option_fault(options, i) is None);
        }
    }
    assert(list[at]@ == options[at]);
    lemma_option_text(list[at]@, key, found);
    assert forall|j: int| 0 <= j < list.len() && #[trigger] list[j]@ == key + "="@
        + found implies j == at by {
        lemma_option_text(list[j]@, key, found);
        assert(gives(list[j]@, key, found));
    }
    assert(stands_once(list, key + "="@ + found));
    if stands_once(list, key + "="@ + value) {
        let i = choose|i: int|
            #![trigger list[i]]
            {
                &&& 0 <= i < list.len()
                &&& list[i]@ == key + "="@ + value
                &&& forall|j: int| 0 <= j < list.len() && #[trigger] list[j]@ == key + "="@ + value
                    ==> j == i
            };
        lemma_option_text(list[i]@, key, value);
        assert(gives(list[i]@, key, value));
    }
}

/// Confidential storage options are accepted exactly where each of the five settings stands once
/// with the value that it must have, the filesystem is ext4, and the key is the measured one, whose
/// ID is a canonical UUID. They are absent exactly where no driver option is confidential. In all
/// other cases the storage is refused.
pub proof fn law_confidential_options_come_all_or_none(
    storage: Storage,
    claim: Option<&str>,
    result: Result<Option<ConfidentialStorageDriverOptions>, BlockError>,
)
    requires
        call_ensures(confidential_storage_driver_options, (&storage, claim), result),
    ensures
        result is Ok && result->Ok_0 is None <==> !names_confidential_option(storage),
        result is Ok && result->Ok_0 is Some <==> {
            &&& storage.fstype@ == "ext4"@
            &&& claim is Some
            &&& is_canonical(claim->0@)
            &&& asks_for_the_volume_of(storage.driver_options@, claim->0@)
        },
        result is Ok && result->Ok_0 is Some ==> result->Ok_0->0.key_uri@
            == "kbs:///default/codewire-workspace-luks/"@ + claim->0@,
{
    lemma_confidential_part(storage, claim_text(claim));
}

/// The one place at which a text stands.
proof fn lemma_once(list: Seq<String>, text: Seq<char>) -> (at: int)
    requires
        stands_once(list, text),
    ensures
        0 <= at < list.len(),
        list[at]@ == text,
        forall|j: int| 0 <= j < list.len() && #[trigger] list[j]@ == text ==> j == at,
{
    choose|i: int|
        #![trigger list[i]]
        {
            &&& 0 <= i < list.len()
            &&& list[i]@ == text
            &&& forall|j: int| 0 <= j < list.len() && #[trigger] list[j]@ == text ==> j == i
        }
}

proof fn lemma_settings_are_read(list: Seq<String>, key_id: Seq<char>)
    requires
        asks_for_the_volume_of(list, key_id),
    ensures
        options_fault(texts(list), 0) is None,
        option_value(texts(list), CONFIDENTIAL_STORAGE_ENCRYPTION_KEY@) == Some("luks2"@),
        option_value(texts(list), CONFIDENTIAL_STORAGE_SOURCE_KEY@) == Some("auto"@),
        option_value(texts(list), CONFIDENTIAL_STORAGE_KEY_URI_KEY@) == Some(
            CONFIDENTIAL_STORAGE_KEY_URI_PREFIX@ + key_id,
        ),
        option_value(texts(list), CONFIDENTIAL_STORAGE_FILESYSTEM_KEY@) == Some("ext4"@),
        option_value(texts(list), CONFIDENTIAL_STORAGE_GROW_KEY@) == Some("true"@),
{
    let options = texts(list);
    let uri = CONFIDENTIAL_STORAGE_KEY_URI_PREFIX@ + key_id;
    lemma_keys_are_prefixed_and_plain();
    lemma_keys_differ();
    let encryption = lemma_once(list, CONFIDENTIAL_STORAGE_ENCRYPTION_KEY@ + "="@ + "luks2"@);
    let source = lemma_once(list, CONFIDENTIAL_STORAGE_SOURCE_KEY@ + "="@ + "auto"@);
    let key_uri = lemma_once(list, CONFIDENTIAL_STORAGE_KEY_URI_KEY@ + "="@ + uri);
    let filesystem = lemma_once(list, CONFIDENTIAL_STORAGE_FILESYSTEM_KEY@ + "="@ + "ext4"@);
    let grow = lemma_once(list, CONFIDENTIAL_STORAGE_GROW_KEY@ + "="@ + "true"@);
    assert forall|i: int| 0 <= i < list.len() && is_confidential_option(
        #[trigger] list[i]@,
    ) implies {
        ||| i == encryption && gives(list[i]@, CONFIDENTIAL_STORAGE_ENCRYPTION_KEY@, "luks2"@)
        ||| i == source && gives(list[i]@, CONFIDENTIAL_STORAGE_SOURCE_KEY@, "auto"@)
        ||| i == key_uri && gives(list[i]@, CONFIDENTIAL_STORAGE_KEY_URI_KEY@, uri)
        ||| i == filesystem && gives(list[i]@, CONFIDENTIAL_STORAGE_FILESYSTEM_KEY@, "ext4"@)
        ||| i == grow && gives(list[i]@, CONFIDENTIAL_STORAGE_GROW_KEY@, "true"@)
    } by {
        lemma_option_text(list[i]@, CONFIDENTIAL_STORAGE_ENCRYPTION_KEY@, "luks2"@);
        lemma_option_text(list[i]@, CONFIDENTIAL_STORAGE_SOURCE_KEY@, "auto"@);
        lemma_option_text(list[i]@, CONFIDENTIAL_STORAGE_KEY_URI_KEY@, uri);
        lemma_option_text(list[i]@, CONFIDENTIAL_STORAGE_FILESYSTEM_KEY@, "ext4"@);
        lemma_option_text(list[i]@, CONFIDENTIAL_STORAGE_GROW_KEY@, "true"@);
    }
    assert forall|i: int| 0 <= i < options.len() implies (#[trigger] option_fault(options, i)) is None by {
        assert(options[i] == list[i]@);
        if is_confidential_option(options[i]) {
            let key = (split_first(options[i], '=')->0).0;
            let taken = options.take(i);
            lemma_option_value(taken, key);
            if option_value(taken, key) is Some {
                let value = option_value(taken, key)->0;
                let j = choose|j: int|
                    0 <= j < taken.len() && gives(#[trigger] taken[j], key, value);
                assert(taken[j] == list[j]@);
                assert(is_confidential_option(list[j]@));
            }
        }
    }
    lemma_options_fault(options, 0);
    lemma_value_is_read(list, encryption, CONFIDENTIAL_STORAGE_ENCRYPTION_KEY@, "luks2"@);
    lemma_value_is_read(list, source, CONFIDENTIAL_STORAGE_SOURCE_KEY@, "auto"@);
    lemma_value_is_read(list, key_uri, CONFIDENTIAL_STORAGE_KEY_URI_KEY@, uri);
    lemma_value_is_read(list, filesystem, CONFIDENTIAL_STORAGE_FILESYSTEM_KEY@, "ext4"@);
    lemma_value_is_read(list, grow, CONFIDENTIAL_STORAGE_GROW_KEY@, "true"@);
}

proof fn lemma_value_is_read(list: Seq<String>, at: int, key: Seq<char>, value: Seq<char>)
    requires
        0 <= at < list.len(),
        list[at]@ == key + "="@ + value,
        has_prefix(key, CONFIDENTIAL_STORAGE_DRIVER_OPTION_PREFIX@),
        !key.contains('='),
        options_fault(texts(list), 0) is None,
    ensures
        option_value(texts(list), key) == Some(value),
{
    let options = texts(list);
    lemma_option_text(list[at]@, key, value);
    lemma_option_value(options, key);
    assert(gives(options[at], key, value));
    lemma_setting_stands_once(list, key, value);
    assert(gives(list[at]@, key, value));
}

/// Whether the confidential part of a storage's driver options is in order for a measured key: the
/// five settings for the volume of that key, on ext4.
pub open spec fn asks_for_the_measured_volume(storage: Storage, claim: Option<Seq<char>>) -> bool {
    &&& storage.fstype@ == "ext4"@
    &&& claim is Some
    &&& is_canonical(claim->0)
    &&& asks_for_the_volume_of(storage.driver_options@, claim->0)
}

/// Which driver options go together: confidential storage with neither of the others, ephemeral
/// encryption only with a new filesystem, and a new filesystem by itself. What is read of accepted
/// options is what they ask for.
pub proof fn law_driver_options_go_together(
    storage: Storage,
    claim: Option<&str>,
    result: Result<BlockStorageDriverOptions, BlockError>,
    create: bool,
)
    requires
        call_ensures(block_storage_driver_options_with_claim, (&storage, claim), result),
        call_ensures(should_create_block_filesystem, (&storage,), create),
    ensures
        create <==> lists_text(storage.driver_options@, "create_filesystem=true"@),
        result is Ok <==> {
            let encrypt = lists_text(storage.driver_options@, "encryption_key=ephemeral"@);
            if names_confidential_option(storage) {
                asks_for_the_measured_volume(storage, claim_text(claim)) && !encrypt && !create
            } else {
                encrypt ==> create
            }
        },
        result is Ok ==> {
            let options = result->Ok_0;
            &&& options.has_ephemeral_encryption <==> lists_text(
                storage.driver_options@,
                "encryption_key=ephemeral"@,
            )
            &&& options.should_create_filesystem <==> create
            &&& options.confidential_storage is Some <==> names_confidential_option(storage)
            &&& options.confidential_storage is Some ==> claim is Some
                && options.confidential_storage->0.key_uri@
                == "kbs:///default/codewire-workspace-luks/"@ + claim->0@
        },
        result is Err && !names_confidential_option(storage)
            ==> result->Err_0 is EncryptionWithoutFilesystem,
        result is Err && names_confidential_option(storage) && asks_for_the_measured_volume(
            storage,
            claim_text(claim),
        ) ==> result->Err_0 is ConflictingOptions,
{
    lemma_confidential_part(storage, claim_text(claim));
}

/// What [`law_confidential_options_come_all_or_none`] says of the key URI that is asked for.
proof fn lemma_confidential_part(storage: Storage, claim: Option<Seq<char>>)
    ensures
        ({
            let requested = requested_key_uri(
                storage.fstype@,
                texts(storage.driver_options@),
                claim,
            );
            &&& requested == Ok::<Option<Seq<char>>, BlockError>(None)
                <==> !names_confidential_option(storage)
            &&& requested is Ok && requested->Ok_0 is Some <==> asks_for_the_measured_volume(
                storage,
                claim,
            )
            &&& requested is Ok && requested->Ok_0 is Some ==> requested->Ok_0->0
                == "kbs:///default/codewire-workspace-luks/"@ + claim->0
        }),
{
    let list = storage.driver_options@;
    let options = texts(list);
    let requested = requested_key_uri(storage.fstype@, options, claim);
    lemma_no_confidential_option(storage);
    lemma_keys_are_prefixed_and_plain();
    lemma_keys_differ();
    if requested is Ok && requested->Ok_0 is Some {
        let uri = requested->Ok_0->0;
        let key_id = claim->0;
        assert(uri =~= CONFIDENTIAL_STORAGE_KEY_URI_PREFIX@ + key_id);
        lemma_setting_stands_once(list, CONFIDENTIAL_STORAGE_ENCRYPTION_KEY@, "luks2"@);
        lemma_setting_stands_once(list, CONFIDENTIAL_STORAGE_SOURCE_KEY@, "auto"@);
        lemma_setting_stands_once(list, CONFIDENTIAL_STORAGE_KEY_URI_KEY@, uri);
        lemma_setting_stands_once(list, CONFIDENTIAL_STORAGE_FILESYSTEM_KEY@, "ext4"@);
        lemma_setting_stands_once(list, CONFIDENTIAL_STORAGE_GROW_KEY@, "true"@);
        lemma_options_fault(options, 0);
        assert forall|i: int| 0 <= i < list.len() && has_prefix(
            #[trigger] list[i]@,
            "io.codewire.storage."@,
        ) implies {
            ||| list[i]@ == "io.codewire.storage.encryption"@ + "="@ + "luks2"@
            ||| list[i]@ == "io.codewire.storage.source"@ + "="@ + "auto"@
            ||| list[i]@ == "io.codewire.storage.key-uri"@ + "="@ + (
            "kbs:///default/codewire-workspace-luks/"@ + key_id)
            ||| list[i]@ == "io.codewire.storage.filesystem"@ + "="@ + "ext4"@
            ||| list[i]@ == "io.codewire.storage.grow"@ + "="@ + "true"@
        } by {
            assert(options[i] == list[i]@);
            assert(option_fault(options, i) is None);
            let parts = split_first(options[i], '=')->0;
            assert(gives(list[i]@, parts.0, parts.1));
            lemma_option_text(list[i]@, parts.0, parts.1);
        }
    }
    if asks_for_the_measured_volume(storage, claim) {
        lemma_settings_are_read(list, claim->0);
        let uri = CONFIDENTIAL_STORAGE_KEY_URI_PREFIX@ + claim->0;
        let length = CONFIDENTIAL_STORAGE_KEY_URI_PREFIX@.len() as int;
        assert(uri.skip(length) =~= claim->0);
        assert(uri.take(length) =~= CONFIDENTIAL_STORAGE_KEY_URI_PREFIX@);
    }
}

/// Block storage is accepted exactly where its driver options go together and the filesystem that
/// is to be made, if any, is ext4.
pub proof fn law_block_storage_is_accepted(
    storage: Storage,
    dev_num: String,
    key: WorkspaceStorageKey,
    result: Result<Vec<BlockAction>, BlockError>,
)
    requires
        call_ensures(handle_block_storage, (&storage, &dev_num, &key), result),
    ensures
        ({
            let encrypt = lists_text(storage.driver_options@, "encryption_key=ephemeral"@);
            let create = lists_text(storage.driver_options@, "create_filesystem=true"@);
            &&& result is Ok <==> if names_confidential_option(storage) {
                !encrypt && !create && asks_for_the_measured_volume(
                    storage,
                    optional_text(key.id),
                )
            } else if encrypt {
                create
            } else {
                create ==> storage.fstype@ == "ext4"@
            }
            &&& result is Err && !names_confidential_option(storage) ==> if encrypt {
                result->Err_0 is EncryptionWithoutFilesystem
            } else {
                result->Err_0 == BlockError::UnsupportedFilesystem(storage.fstype)
            }
        }),
{
    lemma_confidential_part(storage, optional_text(key.id));
}

/// How accepted block storage is mounted: confidential storage with the measured key, encrypted
/// storage by the data hub under a throw-away key and never as it is, and other storage as it is,
/// after its filesystem has been made where that is asked for.
pub proof fn law_block_storage_is_mounted_as_it_asks(
    storage: Storage,
    dev_num: String,
    key: WorkspaceStorageKey,
    actions: Vec<BlockAction>,
)
    requires
        call_ensures(handle_block_storage, (&storage, &dev_num, &key), Ok(actions)),
    ensures
        ({
            let encrypt = lists_text(storage.driver_options@, "encryption_key=ephemeral"@);
            let create = lists_text(storage.driver_options@, "create_filesystem=true"@);
            let confidential = names_confidential_option(storage);
            &&& confidential ==> {
                &&& actions@.len() == 2
                &&& key.id is Some
                &&& actions@[0] matches BlockAction::ConfidentialMount {
                    volume_type,
                    device_number,
                    mount_point,
                    key_uri,
                }
                &&& volume_type@ == "block-device"@
                &&& device_number@ == dev_num@
                &&& mount_point@ == storage.mount_point@
                &&& key_uri@ == "kbs:///default/codewire-workspace-luks/"@ + key.id->0@
            }
            &&& encrypt ==> {
                &&& !confidential
                &&& actions@.len() == 2
                &&& actions@[0] matches BlockAction::SecureMount {
                    volume_type,
                    device_number,
                    encryption,
                    mount_point,
                    mkfs_opts,
                }
                &&& volume_type@ == "block-device"@
                &&& device_number@ == dev_num@
                &&& encryption@ == "luks2"@
                &&& mount_point@ == storage.mount_point@
                &&& mkfs_opts@ == "-O ^has_journal -m 0 -i 163840 -I 128"@
            }
            &&& !confidential && !encrypt ==> {
                &&& actions@.len() == if create {
                    3int
                } else {
                    2
                }
                &&& actions@[actions@.len() - 2] is Mount
                &&& create ==> {
                    &&& actions@[0] matches BlockAction::MakeFilesystem { program, arguments }
                    &&& program@ == "mkfs.ext4"@
                    &&& texts(arguments@) == seq![
                        "-F"@,
                        "-O"@,
                        "^has_journal"@,
                        "-m"@,
                        "0"@,
                        "-i"@,
                        "163840"@,
                        "-I"@,
                        "128"@,
                        storage.source@,
                    ]
                }
            }
        }),
{
    lemma_confidential_part(storage, optional_text(key.id));
    lemma_mkfs_options_joined();
    let steps = action_views(actions@);
    assert(steps.len() == actions@.len());
    assert forall|i: int| 0 <= i < actions@.len() implies steps[i] == (#[trigger] actions@[i])@ by {}
    assert(seq!["-F"@] + mkfs_option_texts() + seq![storage.source@] =~= seq![
        "-F"@,
        "-O"@,
        "^has_journal"@,
        "-m"@,
        "0"@,
        "-i"@,
        "163840"@,
        "-I"@,
        "128"@,
        storage.source@,
    ]);
}

proof fn lemma_mkfs_options_joined()
    ensures
        joined(mkfs_option_texts(), " "@) == "-O ^has_journal -m 0 -i 163840 -I 128"@,
{
    reveal_strlit(" ");
    reveal_strlit("-O");
    reveal_strlit("^has_journal");
    reveal_strlit("-m");
    reveal_strlit("0");
    reveal_strlit("-i");
    reveal_strlit("163840");
    reveal_strlit("-I");
    reveal_strlit("128");
    reveal_strlit("-O ^has_journal -m 0 -i 163840 -I 128");
    let all = mkfs_option_texts();
    let space = " "@;
    assert(all.take(8) =~= all);
    assert(all.take(8).drop_last() =~= all.take(7));
    assert(all.take(7).drop_last() =~= all.take(6));
    assert(all.take(6).drop_last() =~= all.take(5));
    assert(all.take(5).drop_last() =~= all.take(4));
    assert(all.take(4).drop_last() =~= all.take(3));
    assert(all.take(3).drop_last() =~= all.take(2));
    assert(all.take(2).drop_last() =~= all.take(1));
    assert(joined(all.take(1), space) == "-O"@);
    assert(joined(all.take(2), space) == joined(all.take(1), space) + space + "^has_journal"@);
    assert(joined(all.take(3), space) == joined(all.take(2), space) + space + "-m"@);
    assert(joined(all.take(4), space) == joined(all.take(3), space) + space + "0"@);
    assert(joined(all.take(5), space) == joined(all.take(4), space) + space + "-i"@);
    assert(joined(all.take(6), space) == joined(all.take(5), space) + space + "163840"@);
    assert(joined(all.take(7), space) == joined(all.take(6), space) + space + "-I"@);
    assert(joined(all.take(8), space) == joined(all.take(7), space) + space + "128"@);
    assert(joined(all, space) =~= "-O ^has_journal -m 0 -i 163840 -I 128"@);
}

/// Making a filesystem fails exactly where the program did not succeed, with all that it said.
pub proof fn law_filesystem_maker_is_believed(
    source: String,
    success: bool,
    status: String,
    stdout: String,
    stderr: String,
    result: Result<(), BlockError>,
    storage: Storage,
    command: Result<BlockAction, BlockError>,
)
    requires
        call_ensures(filesystem_outcome, (&source, success, status, stdout, stderr), result),
        call_ensures(ensure_block_filesystem, (&storage,), command),
    ensures
        result is Ok <==> success,
        !success ==> result->Err_0 == (BlockError::FilesystemCreation {
            source,
            status,
            stdout,
            stderr,
        }),
        command is Ok <==> storage.fstype@ == "ext4"@,
        command is Ok ==> command->Ok_0 is MakeFilesystem && texts(
            command->Ok_0->MakeFilesystem_arguments@,
        ).last() == storage.source@,
{
}

/// A device number is written as the two numbers that make it up, and those hold all of its bits:
/// twelve low and twenty high bits of the major number, eight low and twenty-four high bits of the
/// minor number.
pub proof fn law_device_number_is_major_and_minor(major: u32, minor: u32, text: String)
    requires
        call_ensures(
            get_device_number,
            (
                ((major as u64 & 0xffff_f000) << 32) | ((major as u64 & 0xfff) << 8) | ((minor
                    as u64 & 0xffff_ff00) << 12) | (minor as u64 & 0xff),
            ),
            text,
        ),
    ensures
        text@ == decimal(major as nat) + seq![':'] + decimal(minor as nat),
{
    reveal_strlit(":");
    assert(":"@ =~= seq![':']);
    let dev: u64 = ((major as u64 & 0xffff_f000) << 32) | ((major as u64 & 0xfff) << 8) | ((
    minor as u64 & 0xffff_ff00) << 12) | (minor as u64 & 0xff);
    assert(((dev >> 32) & 0xffff_f000) | ((dev >> 8) & 0x0000_0fff) == major as u64) by (bit_vector)
        requires
            dev == ((major as u64 & 0xffff_f000) << 32) | ((major as u64 & 0xfff) << 8) | ((
            minor as u64 & 0xffff_ff00) << 12) | (minor as u64 & 0xff),
    ;
    assert(((dev >> 12) & 0xffff_ff00) | (dev & 0x0000_00ff) == minor as u64) by (bit_vector)
        requires
            dev == ((major as u64 & 0xffff_f000) << 32) | ((major as u64 & 0xfff) << 8) | ((
            minor as u64 & 0xffff_ff00) << 12) | (minor as u64 & 0xff),
    ;
}

/// Each handler manages the storages of one driver.
pub proof fn law_each_driver_has_its_handler(
    mmio: VirtioBlkMmioHandler,
    pci: VirtioBlkPciHandler,
    ccw: VirtioBlkCcwHandler,
    scsi: ScsiHandler,
    pmem: PmemHandler,
)
    ensures
        mmio.drivers() == seq!["mmioblk"@],
        pci.drivers() == seq!["blk"@],
        ccw.drivers() == seq!["blk-ccw"@],
        scsi.drivers() == seq!["scsi"@],
        pmem.drivers() == seq!["nvdimm"@],
{
}

/// How the device of a source is found: on the MMIO bus at the source itself, once it is there; on
/// the PCI bus at the source itself where that is a device node, which must be a block device; and
/// on all other buses by resolving the source.
pub proof fn law_devices_are_found_by_their_bus(
    mmio: VirtioBlkMmioHandler,
    pci: VirtioBlkPciHandler,
    ccw: VirtioBlkCcwHandler,
    scsi: ScsiHandler,
    pmem: PmemHandler,
    source: Seq<char>,
    exists_as_path: bool,
)
    ensures
        mmio.lookup(source, exists_as_path) is Ready <==> exists_as_path,
        mmio.lookup(source, exists_as_path) is WaitForMmio <==> !exists_as_path,
        pci.lookup(source, exists_as_path) is InspectNode <==> has_prefix(source, "/dev"@),
        pci.lookup(source, exists_as_path) is ResolvePci <==> !has_prefix(source, "/dev"@),
        ccw.lookup(source, exists_as_path) is ResolveCcw,
        scsi.lookup(source, exists_as_path) is ResolveScsi,
        pmem.lookup(source, exists_as_path) is WaitForPmem,
{
}

/// A device node is refused exactly where its mode has none of the bits of a block device.
pub proof fn law_device_nodes_are_block_devices(
    pci: VirtioBlkPciHandler,
    source: String,
    mode: u32,
    result: Result<(), BlockError>,
)
    requires
        call_ensures(VirtioBlkPciHandler::check_node, (&pci, &source, mode), result),
    ensures
        result is Ok <==> mode & 0o060000 != 0,
        result is Err ==> result->Err_0 == BlockError::InvalidDevice(source),
{
}

/// Whether an option sets a key of confidential storage: it begins with the key and an equals sign.
pub open spec fn sets(option: Seq<char>, key: Seq<char>) -> bool {
    has_prefix(option, key + "="@)
}

/// Whether an option sets one of the five keys of confidential storage.
pub open spec fn sets_a_known_key(option: Seq<char>) -> bool {
    ||| sets(option, "io.codewire.storage.encryption"@)
    ||| sets(option, "io.codewire.storage.source"@)
    ||| sets(option, "io.codewire.storage.key-uri"@)
    ||| sets(option, "io.codewire.storage.filesystem"@)
    ||| sets(option, "io.codewire.storage.grow"@)
}

/// Whether two options set the same of the five keys.
pub open spec fn set_the_same_key(left: Seq<char>, right: Seq<char>) -> bool {
    ||| sets(left, "io.codewire.storage.encryption"@) && sets(
        right,
        "io.codewire.storage.encryption"@,
    )
    ||| sets(left, "io.codewire.storage.source"@) && sets(right, "io.codewire.storage.source"@)
    ||| sets(left, "io.codewire.storage.key-uri"@) && sets(right, "io.codewire.storage.key-uri"@)
    ||| sets(left, "io.codewire.storage.filesystem"@) && sets(
        right,
        "io.codewire.storage.filesystem"@,
    )
    ||| sets(left, "io.codewire.storage.grow"@) && sets(right, "io.codewire.storage.grow"@)
}

/// Whether an option before a place sets the same key as the one at the place.
pub open spec fn sets_a_key_again(list: Seq<String>, i: int) -> bool {
    exists|j: int| 0 <= j < i && set_the_same_key((#[trigger] list[j])@, list[i]@)
}

/// Whether the option at a place is in order: not confidential, or the first that sets one of the
/// five keys.
pub open spec fn option_is_in_order(list: Seq<String>, i: int) -> bool {
    has_prefix(list[i]@, "io.codewire.storage."@) ==> sets_a_known_key(list[i]@)
        && !sets_a_key_again(list, i)
}

/// Whether some option of a list sets a key.
pub open spec fn some_option_sets(list: Seq<String>, key: Seq<char>) -> bool {
    exists|i: int| 0 <= i < list.len() && sets((#[trigger] list[i])@, key)
}

proof fn lemma_sets(option: Seq<char>, key: Seq<char>)
    requires
        has_prefix(key, CONFIDENTIAL_STORAGE_DRIVER_OPTION_PREFIX@),
        !key.contains('='),
    ensures
        sets(option, key) ==> gives(option, key, option.skip(key.len() as int + 1)),
        forall|value: Seq<char>| #[trigger] gives(option, key, value) ==> sets(option, key),
{
    lemma_keys_are_prefixed_and_plain();
    if sets(option, key) {
        let value = option.skip(key.len() as int + 1);
        assert((key + "="@).len() == key.len() + 1);
        assert(option =~= key + "="@ + value) by {
            assert(option.take(key.len() as int + 1) =~= key + "="@);
        }
        lemma_option_text(option, key, value);
    }
    assert forall|value: Seq<char>| #[trigger] gives(option, key, value) implies sets(
        option,
        key,
    ) by {
        lemma_option_text(option, key, value);
        assert(option.take((key + "="@).len() as int) =~= key + "="@);
    }
}

/// What is wrong with the option at a place, while those before it are in order.
proof fn lemma_option_in_order(list: Seq<String>, i: int)
    requires
        0 <= i < list.len(),
    ensures
        option_fault(texts(list), i) is None <==> option_is_in_order(list, i),
        option_fault(texts(list), i) is Some ==> has_prefix(list[i]@, "io.codewire.storage."@)
            && match option_fault(texts(list), i)->0 {
            BlockError::MalformedOption => !list[i]@.contains('='),
            BlockError::UnsupportedOption => list[i]@.contains('=') && !sets_a_known_key(
                list[i]@,
            ),
            BlockError::DuplicateOption => sets_a_known_key(list[i]@) && sets_a_key_again(list, i),
            _ => false,
        },
{
    let options = texts(list);
    let option = list[i]@;
    lemma_keys_are_prefixed_and_plain();
    lemma_keys_differ();
    lemma_split_first(option, '=');
    assert(options[i] == option);
    lemma_sets(option, CONFIDENTIAL_STORAGE_ENCRYPTION_KEY@);
    lemma_sets(option, CONFIDENTIAL_STORAGE_SOURCE_KEY@);
    lemma_sets(option, CONFIDENTIAL_STORAGE_KEY_URI_KEY@);
    lemma_sets(option, CONFIDENTIAL_STORAGE_FILESYSTEM_KEY@);
    lemma_sets(option, CONFIDENTIAL_STORAGE_GROW_KEY@);
    if is_confidential_option(option) && split_first(option, '=') is Some {
        let (key, value) = split_first(option, '=')->0;
        assert(gives(option, key, value));
        if is_confidential_key(key) {
            let taken = options.take(i);
            lemma_option_value(taken, key);
            if option_value(taken, key) is Some {
                let other = option_value(taken, key)->0;
                let j = choose|j: int|
                    0 <= j < taken.len() && gives(#[trigger] taken[j], key, other);
                assert(taken[j] == list[j]@);
                lemma_sets(list[j]@, key);
                assert(set_the_same_key(list[j]@, list[i]@));
            }
            if sets_a_key_again(list, i) {
                let j = choose|j: int|
                    0 <= j < i && set_the_same_key((#[trigger] list[j])@, list[i]@);
                assert(taken[j] == list[j]@);
                lemma_sets(list[j]@, key);
                assert(gives(taken[j], key, list[j]@.skip(key.len() as int + 1)));
            }
        }
    }
}

proof fn lemma_some_option_sets(list: Seq<String>, key: Seq<char>)
    requires
        has_prefix(key, CONFIDENTIAL_STORAGE_DRIVER_OPTION_PREFIX@),
        !key.contains('='),
    ensures
        option_value(texts(list), key) is Some <==> some_option_sets(list, key),
        option_value(texts(list), key) is Some ==> exists|i: int|
            0 <= i < list.len() && (#[trigger] list[i])@ == key + "="@ + option_value(
                texts(list),
                key,
            )->0,
{
    let options = texts(list);
    lemma_option_value(options, key);
    if option_value(options, key) is Some {
        let value = option_value(options, key)->0;
        let i = choose|i: int|
            0 <= i < options.len() && gives(#[trigger] options[i], key, value);
        assert(options[i] == list[i]@);
        lemma_sets(list[i]@, key);
        lemma_option_text(list[i]@, key, value);
        assert(sets(list[i]@, key));
    }
    if some_option_sets(list, key) {
        let i = choose|i: int| 0 <= i < list.len() && sets((#[trigger] list[i])@, key);
        lemma_sets(list[i]@, key);
        assert(options[i] == list[i]@);
        assert(gives(options[i], key, list[i]@.skip(key.len() as int + 1)));
    }
}

/// Why confidential storage options are refused: for the first of them that has no value, is not
/// known or comes again, then for what is missing, then for a value or a filesystem that is not
/// supported, and last for the key, which must be named by a canonical UUID below the workspace keys
/// and must be the measured one.
pub proof fn law_confidential_options_are_refused_for_what_is_wrong(
    storage: Storage,
    claim: Option<&str>,
    error: BlockError,
)
    requires
        call_ensures(confidential_storage_driver_options, (&storage, claim), Err(error)),
    ensures
        ({
            let list = storage.driver_options@;
            let in_order = forall|i: int|
                0 <= i < list.len() ==> #[trigger] option_is_in_order(list, i);
            let complete = in_order && some_option_sets(list, "io.codewire.storage.encryption"@)
                && some_option_sets(list, "io.codewire.storage.source"@) && some_option_sets(
                list,
                "io.codewire.storage.key-uri"@,
            ) && some_option_sets(list, "io.codewire.storage.filesystem"@) && some_option_sets(
                list,
                "io.codewire.storage.grow"@,
            );
            let supported = complete && storage.fstype@ == "ext4"@ && stands_once(
                list,
                "io.codewire.storage.encryption"@ + "="@ + "luks2"@,
            ) && stands_once(list, "io.codewire.storage.source"@ + "="@ + "auto"@)
                && stands_once(list, "io.codewire.storage.filesystem"@ + "="@ + "ext4"@)
                && stands_once(list, "io.codewire.storage.grow"@ + "="@ + "true"@);
            match error {
                BlockError::MalformedOption => exists|i: int| #[trigger]
                    is_first_out_of_order(list, i) && !list[i]@.contains('='),
                BlockError::UnsupportedOption => exists|i: int| #[trigger]
                    is_first_out_of_order(list, i) && list[i]@.contains('=') && !sets_a_known_key(
                        list[i]@,
                    ),
                BlockError::DuplicateOption => exists|i: int| #[trigger]
                    is_first_out_of_order(list, i) && sets_a_known_key(list[i]@)
                        && sets_a_key_again(list, i),
                BlockError::IncompleteOptions => in_order && names_confidential_option(storage)
                    && !complete,
                BlockError::InvalidValue => complete && !supported,
                BlockError::InvalidKeyUri => supported && !exists|rest: Seq<char>| #[trigger]
                    names_key(list, rest),
                BlockError::InvalidKeyUriUuid => supported && exists|rest: Seq<char>| #[trigger]
                    names_key(list, rest) && !is_canonical(rest),
                BlockError::MissingClaim => supported && claim is None && exists|rest: Seq<char>|
                 #[trigger]
                    names_key(list, rest) && is_canonical(rest),
                BlockError::ClaimMismatch => supported && claim is Some && exists|rest: Seq<char>|
                 #[trigger]
                    names_key(list, rest) && is_canonical(rest) && rest != claim->0@,
                _ => false,
            }
        }),
{
    let list = storage.driver_options@;
    let options = texts(list);
    lemma_keys_are_prefixed_and_plain();
    lemma_options_fault(options, 0);
    lemma_no_confidential_option(storage);
    assert forall|i: int| 0 <= i < list.len() implies ((#[trigger] option_fault(options, i)) is None
        <==> option_is_in_order(list, i)) by {
        lemma_option_in_order(list, i);
    }
    if options_fault(options, 0) is Some {
        let i = lemma_first_fault(options, 0);
        lemma_option_in_order(list, i);
        assert forall|j: int| 0 <= j < i implies #[trigger] option_is_in_order(list, j) by {
            assert(option_fault(options, j) is None);
        }
        assert(is_first_out_of_order(list, i));
    } else {
        assert forall|i: int| 0 <= i < list.len() implies #[trigger] option_is_in_order(
            list,
            i,
        ) by {
            assert(option_fault(options, i) is None);
        }
        lemma_some_option_sets(list, CONFIDENTIAL_STORAGE_ENCRYPTION_KEY@);
        lemma_some_option_sets(list, CONFIDENTIAL_STORAGE_SOURCE_KEY@);
        lemma_some_option_sets(list, CONFIDENTIAL_STORAGE_KEY_URI_KEY@);
        lemma_some_option_sets(list, CONFIDENTIAL_STORAGE_FILESYSTEM_KEY@);
        lemma_some_option_sets(list, CONFIDENTIAL_STORAGE_GROW_KEY@);
        if asks_all_confidential(options) {
            lemma_setting_stands_once(list, CONFIDENTIAL_STORAGE_ENCRYPTION_KEY@, "luks2"@);
            lemma_setting_stands_once(list, CONFIDENTIAL_STORAGE_SOURCE_KEY@, "auto"@);
            lemma_setting_stands_once(list, CONFIDENTIAL_STORAGE_FILESYSTEM_KEY@, "ext4"@);
            lemma_setting_stands_once(list, CONFIDENTIAL_STORAGE_GROW_KEY@, "true"@);
            let uri = option_value(options, CONFIDENTIAL_STORAGE_KEY_URI_KEY@)->0;
            let prefix = CONFIDENTIAL_STORAGE_KEY_URI_PREFIX@;
            assert forall|rest: Seq<char>| #[trigger] names_key(list, rest) implies uri == prefix
                + rest by {
                lemma_setting_stands_once(
                    list,
                    CONFIDENTIAL_STORAGE_KEY_URI_KEY@,
                    prefix + rest,
                );
                let i = choose|i: int|
                    0 <= i < list.len() && (#[trigger] list[i])@ == "io.codewire.storage.key-uri"@
                        + "="@ + ("kbs:///default/codewire-workspace-luks/"@ + rest);
                lemma_option_text(
                    list[i]@,
                    CONFIDENTIAL_STORAGE_KEY_URI_KEY@,
                    prefix + rest,
                );
                assert(gives(list[i]@, CONFIDENTIAL_STORAGE_KEY_URI_KEY@, prefix + rest));
            }
            if has_prefix(uri, prefix) {
                let rest = uri.skip(prefix.len() as int);
                assert(prefix + rest =~= uri);
                assert(names_key(list, rest));
            } else {
                assert forall|rest: Seq<char>| !#[trigger] names_key(list, rest) by {
                    if names_key(list, rest) {
                        assert((prefix + rest).take(prefix.len() as int) =~= prefix);
                    }
                }
            }
        }
    }
}

/// Whether driver options name the workspace key with an ID.
pub open spec fn names_key(list: Seq<String>, key_id: Seq<char>) -> bool {
    exists|i: int|
        0 <= i < list.len() && (#[trigger] list[i])@ == "io.codewire.storage.key-uri"@ + "="@ + (
        "kbs:///default/codewire-workspace-luks/"@ + key_id)
}

/// Whether the option at a place is the first that is out of order.
pub open spec fn is_first_out_of_order(list: Seq<String>, i: int) -> bool {
    &&& 0 <= i < list.len()
    &&& has_prefix(list[i]@, "io.codewire.storage."@)
    &&& !option_is_in_order(list, i)
    &&& forall|j: int| 0 <= j < i ==> #[trigger] option_is_in_order(list, j)
}

proof fn lemma_first_fault(options: Seq<Seq<char>>, from: int) -> (i: int)
    requires
        0 <= from,
        options_fault(options, from) is Some,
    ensures
        from <= i < options.len(),
        option_fault(options, i) == options_fault(options, from),
        forall|j: int| from <= j < i ==> #[trigger] option_fault(options, j) is None,
    decreases options.len() - from,
{
    if option_fault(options, from) is Some {
        from
    } else {
        lemma_first_fault(options, from + 1)
    }
}

/// Driver options are read against the recorded key ID, and refused for their confidential part
/// before anything else.
pub proof fn law_driver_options_are_read_against_the_recorded_key(
    storage: Storage,
    key: WorkspaceStorageKey,
    claim: Option<&str>,
    confidential: Result<Option<ConfidentialStorageDriverOptions>, BlockError>,
    options: Result<BlockStorageDriverOptions, BlockError>,
    recorded: Result<BlockStorageDriverOptions, BlockError>,
)
    requires
        claim_text(claim) == optional_text(key.id),
        call_ensures(confidential_storage_driver_options, (&storage, claim), confidential),
        call_ensures(block_storage_driver_options_with_claim, (&storage, claim), options),
        call_ensures(block_storage_driver_options, (&storage, &key), recorded),
    ensures
        options is Ok <==> recorded is Ok,
        options is Err ==> options == recorded,
        options is Ok ==> {
            let left = options->Ok_0;
            let right = recorded->Ok_0;
            &&& left.has_ephemeral_encryption == right.has_ephemeral_encryption
            &&& left.should_create_filesystem == right.should_create_filesystem
            &&& left.confidential_storage is Some <==> right.confidential_storage is Some
            &&& left.confidential_storage is Some ==> left.confidential_storage->0.key_uri@
                == right.confidential_storage->0.key_uri@
        },
        confidential is Err ==> options == Err::<BlockStorageDriverOptions, _>(
            confidential->Err_0,
        ),
{
}

/// What is said of a refused block storage: which of its options is wrong, or the device, the filesystem or
/// the output of the filesystem maker that the error holds.
pub proof fn law_block_messages_name_what_was_refused(
    error: BlockError,
    message: String,
)
    requires
        call_ensures(BlockError::message, (&error,), message),
    ensures
        message@ == match error {
            BlockError::MalformedOption => "malformed confidential storage driver option"@,
            BlockError::UnsupportedOption => "unsupported confidential storage driver option"@,
            BlockError::DuplicateOption => "duplicate confidential storage driver option"@,
            BlockError::IncompleteOptions => "incomplete confidential storage driver options"@,
            BlockError::InvalidValue => "invalid confidential storage driver option value"@,
            BlockError::InvalidKeyUri => "invalid confidential storage key URI"@,
            BlockError::InvalidKeyUriUuid => "invalid confidential storage key URI UUID"@,
            BlockError::MissingClaim => "missing measured confidential storage key ID claim"@,
            BlockError::ClaimMismatch =>
                "confidential storage key URI does not match measured init-data claim"@,
            BlockError::ConflictingOptions =>
                "confidential storage cannot be combined with ephemeral encryption or host-requested filesystem creation"@,
            BlockError::EncryptionWithoutFilesystem => "encryption_key=ephemeral"@
                + " requires "@ + "create_filesystem=true"@ + " for block storage"@,
            BlockError::UnsupportedFilesystem(fstype) => "creating filesystem "@ + fstype@
                + " for block storage is unsupported"@,
            BlockError::InvalidDevice(source) => "Invalid device "@ + source@,
            BlockError::FilesystemCreation { source, status, stdout, stderr } => "mkfs.ext4 failed for "@
                + source@ + ": status="@ + status@ + ", stdout="@ + stdout@ + ", stderr="@
                + stderr@,
        },
{
}

} // verus!
