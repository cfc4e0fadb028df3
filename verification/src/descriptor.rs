//! Protobuf descriptors as plain values: the parts of a `FileDescriptorSet`
//! (as `buf build -o -` emits it) that the analyzer reads.
use vstd::prelude::*;

verus! {

/// A set of `.proto` files.
#[derive(Debug, Default)]
pub struct FileDescriptorSet {
    pub file: Vec<FileDescriptorProto>,
}

/// One `.proto` file.
#[derive(Debug, Default)]
pub struct FileDescriptorProto {
    pub name: Option<String>,
    pub package: Option<String>,
    pub message_type: Vec<DescriptorProto>,
    pub enum_type: Vec<EnumDescriptorProto>,
    pub service: Vec<ServiceDescriptorProto>,
}

/// A message definition, with the messages and enums nested in it.
#[derive(Debug, Default)]
pub struct DescriptorProto {
    pub name: Option<String>,
    pub field: Vec<FieldDescriptorProto>,
    pub nested_type: Vec<DescriptorProto>,
    pub enum_type: Vec<EnumDescriptorProto>,
}

/// A field of a message. `label` and `type_code` hold the numeric codes of the
/// protobuf `Label` and `Type` enumerations; `type_ref` names the referenced
/// message or enum, fully qualified (`.pkg.Name`).
#[derive(Debug, Default)]
pub struct FieldDescriptorProto {
    pub name: Option<String>,
    pub number: Option<i32>,
    pub label: Option<i32>,
    pub type_code: Option<i32>,
    pub type_ref: Option<String>,
}

/// An enum definition.
#[derive(Debug, Default)]
pub struct EnumDescriptorProto {
    pub name: Option<String>,
    pub value: Vec<EnumValueDescriptorProto>,
}

/// A value of an enum.
#[derive(Debug, Default)]
pub struct EnumValueDescriptorProto {
    pub name: Option<String>,
    pub number: Option<i32>,
}

/// A service definition.
#[derive(Debug, Default)]
pub struct ServiceDescriptorProto {
    pub name: Option<String>,
    pub method: Vec<MethodDescriptorProto>,
}

/// An RPC method; its types are fully qualified (`.pkg.Name`).
#[derive(Debug, Default)]
pub struct MethodDescriptorProto {
    pub name: Option<String>,
    pub input_type: Option<String>,
    pub output_type: Option<String>,
}

/// The characters of an optional string, if it is there.
pub open spec fn opt_view(o: Option<String>) -> Option<Seq<char>> {
    match o {
        Some(s) => Some(s@),
        None => None,
    }
}

/// The characters of an optional string, or none when it is absent
/// (`unwrap_or_default`, `unwrap_or("")`).
pub open spec fn or_empty(o: Option<String>) -> Seq<char> {
    match o {
        Some(s) => s@,
        None => Seq::empty(),
    }
}

} // verus!
