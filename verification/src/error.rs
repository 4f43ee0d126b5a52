//! The error type shared by the configuration components.

use vstd::prelude::*;

verus! {

/// Why an operation of the configuration layer was refused.
#[derive(Clone, Copy, Debug, PartialEq, Eq, Structural)]
pub enum ConfigError {
    /// A connection with the same name, compared without regard to ASCII
    /// case, is already in the store.
    DuplicateName,
    /// A connection with the same id is already in the store.
    DuplicateId,
    /// The store has no id left to hand out.
    IdsExhausted,
    /// No connection has the given id.
    ConnectionNotFound,
    /// No group has the given id.
    GroupNotFound,
    /// The group named as parent does not exist.
    ParentNotFound,
    /// The root group cannot be removed.
    RootNotRemovable,
    /// A group names a child group that does not exist or does not stand
    /// behind it, or a file holds groups beside the root.
    MalformedTree,
    /// The text names no security mode.
    UnknownSecurityType,
    /// The number is no type code of a setting.
    UnknownDataType,
    /// No setting has the given key.
    SettingNotFound,
    /// The setting holds a value of another kind than the one asked for.
    TypeMismatch,
    /// The text is no value of the declared type.
    UnparsableValue,
    /// The text is not well-formed XML.
    MalformedXml,
    /// A secret is longer than the masked buffer can hold.
    SecretTooLong,
    /// A masked secret is not an even number of hexadecimal digits.
    MalformedHex,
    /// The filler length of a masked secret does not fit its buffer.
    InconsistentLength,
    /// The key stream does not have the length of the secret.
    KeyLengthMismatch,
    /// The unmasked bytes are not UTF-8.
    InvalidUtf8,
}

/// What is wrong with a request.
#[derive(Clone, Copy, Debug, PartialEq, Eq, Structural)]
pub enum ValidationError {
    /// The principal is empty.
    EmptyPrincipal,
    /// The resource name is empty.
    EmptyResourceName,
    /// The resource type is none of those that exist.
    InvalidResourceType,
    /// The operation is none of those that exist.
    InvalidOperation,
    /// The permission is neither `Allow` nor `Deny`.
    InvalidPermissionType,
    /// The path is empty.
    EmptyPath,
    /// The path does not start with a slash.
    PathNotAbsolute,
    /// The create mode is none of those that exist.
    InvalidCreateMode,
    /// The name of the topic is empty.
    EmptyTopicName,
    /// The number of partitions is not positive.
    PartitionsNotPositive,
    /// The number of replicas is not positive.
    ReplicationNotPositive,
    /// The text names no schema language.
    InvalidSchemaType,
}

/// Why a decoder could not show the bytes of a message.
#[derive(Clone, Copy, Debug, PartialEq, Eq, Structural)]
pub enum DecodeError {
    /// The bytes are no JSON text.
    InvalidJson,
}

impl ConfigError {
    /// The refusal in words.
    pub open spec fn words(self) -> Seq<char> {
        match self {
            ConfigError::DuplicateName => "a connection with the same name, compared without regard to ASCII case, is already in the store"@,
            ConfigError::DuplicateId => "a connection with the same id is already in the store"@,
            ConfigError::IdsExhausted => "the store has no id left to hand out"@,
            ConfigError::ConnectionNotFound => "no connection has the given id"@,
            ConfigError::GroupNotFound => "no group has the given id"@,
            ConfigError::ParentNotFound => "the group named as parent does not exist"@,
            ConfigError::RootNotRemovable => "the root group cannot be removed"@,
            ConfigError::MalformedTree => "a group names a child group that does not exist or does not stand behind it, or a file holds groups beside the root"@,
            ConfigError::UnknownSecurityType => "the text names no security mode"@,
            ConfigError::UnknownDataType => "the number is no type code of a setting"@,
            ConfigError::SettingNotFound => "no setting has the given key"@,
            ConfigError::TypeMismatch => "the setting holds a value of another kind than the one asked for"@,
            ConfigError::UnparsableValue => "the text is no value of the declared type"@,
            ConfigError::MalformedXml => "the text is not well-formed XML"@,
            ConfigError::SecretTooLong => "a secret is longer than the masked buffer can hold"@,
            ConfigError::MalformedHex => "a masked secret is not an even number of hexadecimal digits"@,
            ConfigError::InconsistentLength => "the filler length of a masked secret does not fit its buffer"@,
            ConfigError::KeyLengthMismatch => "the key stream does not have the length of the secret"@,
            ConfigError::InvalidUtf8 => "the unmasked bytes are not UTF-8"@,
        }
    }

    /// The refusal in words, for a message to the user.
    pub fn describe(&self) -> (r: &'static str)
        ensures
            r@ == self.words(),
    {
        match self {
            ConfigError::DuplicateName => "a connection with the same name, compared without regard to ASCII case, is already in the store",
            ConfigError::DuplicateId => "a connection with the same id is already in the store",
            ConfigError::IdsExhausted => "the store has no id left to hand out",
            ConfigError::ConnectionNotFound => "no connection has the given id",
            ConfigError::GroupNotFound => "no group has the given id",
            ConfigError::ParentNotFound => "the group named as parent does not exist",
            ConfigError::RootNotRemovable => "the root group cannot be removed",
            ConfigError::MalformedTree => "a group names a child group that does not exist or does not stand behind it, or a file holds groups beside the root",
            ConfigError::UnknownSecurityType => "the text names no security mode",
            ConfigError::UnknownDataType => "the number is no type code of a setting",
            ConfigError::SettingNotFound => "no setting has the given key",
            ConfigError::TypeMismatch => "the setting holds a value of another kind than the one asked for",
            ConfigError::UnparsableValue => "the text is no value of the declared type",
            ConfigError::MalformedXml => "the text is not well-formed XML",
            ConfigError::SecretTooLong => "a secret is longer than the masked buffer can hold",
            ConfigError::MalformedHex => "a masked secret is not an even number of hexadecimal digits",
            ConfigError::InconsistentLength => "the filler length of a masked secret does not fit its buffer",
            ConfigError::KeyLengthMismatch => "the key stream does not have the length of the secret",
            ConfigError::InvalidUtf8 => "the unmasked bytes are not UTF-8",
        }
    }
}

impl ValidationError {
    /// The refusal in words.
    pub open spec fn words(self) -> Seq<char> {
        match self {
            ValidationError::EmptyPrincipal => "the principal is empty"@,
            ValidationError::EmptyResourceName => "the resource name is empty"@,
            ValidationError::InvalidResourceType => "the resource type is none of those that exist"@,
            ValidationError::InvalidOperation => "the operation is none of those that exist"@,
            ValidationError::InvalidPermissionType => "the permission is neither `Allow` nor `Deny`"@,
            ValidationError::EmptyPath => "the path is empty"@,
            ValidationError::PathNotAbsolute => "the path does not start with a slash"@,
            ValidationError::InvalidCreateMode => "the create mode is none of those that exist"@,
            ValidationError::EmptyTopicName => "the name of the topic is empty"@,
            ValidationError::PartitionsNotPositive => "the number of partitions is not positive"@,
            ValidationError::ReplicationNotPositive => "the number of replicas is not positive"@,
            ValidationError::InvalidSchemaType => "the text names no schema language"@,
        }
    }

    /// The refusal in words, for a message to the user.
    pub fn describe(&self) -> (r: &'static str)
        ensures
            r@ == self.words(),
    {
        match self {
            ValidationError::EmptyPrincipal => "the principal is empty",
            ValidationError::EmptyResourceName => "the resource name is empty",
            ValidationError::InvalidResourceType => "the resource type is none of those that exist",
            ValidationError::InvalidOperation => "the operation is none of those that exist",
            ValidationError::InvalidPermissionType => "the permission is neither `Allow` nor `Deny`",
            ValidationError::EmptyPath => "the path is empty",
            ValidationError::PathNotAbsolute => "the path does not start with a slash",
            ValidationError::InvalidCreateMode => "the create mode is none of those that exist",
            ValidationError::EmptyTopicName => "the name of the topic is empty",
            ValidationError::PartitionsNotPositive => "the number of partitions is not positive",
            ValidationError::ReplicationNotPositive => "the number of replicas is not positive",
            ValidationError::InvalidSchemaType => "the text names no schema language",
        }
    }
}

impl DecodeError {
    /// The refusal in words.
    pub open spec fn words(self) -> Seq<char> {
        match self {
            DecodeError::InvalidJson => "the bytes are no JSON text"@,
        }
    }

    /// The refusal in words, for a message to the user.
    pub fn describe(&self) -> (r: &'static str)
        ensures
            r@ == self.words(),
    {
        match self {
            DecodeError::InvalidJson => "the bytes are no JSON text",
        }
    }
}

} // verus!
