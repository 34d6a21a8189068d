//! The object module and its data descriptions: what this library takes on
//! trust from `cranelift-module` and `cranelift-object`.
//!
//! Nothing in this file is proved. Each function here stands for one function
//! of those crates, and its contract states what their source shows of it,
//! over [`module_view`] and [`description_view`].

use crate::ident::{DataId, FuncId, Linkage};
use cranelift_module::DataDescription;
use cranelift_module::FuncOrDataId;
use cranelift_module::Module;
use cranelift_module::ModuleError;
use cranelift_object::ObjectModule;
use vstd::prelude::*;

verus! {

/// `cranelift_object::ObjectModule`. Nothing is known of a value of it but
/// what the contracts in this file say of its [`module_view`].
#[verifier::external_type_specification]
#[verifier::external_body]
pub struct ExObjectModule(ObjectModule);

/// `cranelift_module::DataDescription`. Nothing is known of a value of it but
/// what the contracts in this file say of its [`description_view`].
#[verifier::external_type_specification]
#[verifier::external_body]
pub struct ExDataDescription(DataDescription);

/// Why the object module refused a declaration or a definition.
#[derive(Clone, Copy, Debug, PartialEq, Eq, Structural)]
pub enum ModuleFault {
    /// The name is already that of a function.
    IncompatibleDeclaration,
    /// The data object has a definition already.
    DuplicateDefinition,
    /// The data object is declared as an import, which has no definition here.
    InvalidImportDefinition,
    /// The name is that of thread-local data already.
    IncompatibleTls,
    /// The backend refused the symbol.
    Backend,
}

/// A data object as the module has it declared.
pub struct DataDecl {
    pub id: DataId,
    pub linkage: Linkage,
    pub writable: bool,
    pub tls: bool,
}

/// A data object as the module has it defined: its bytes, where they start
/// in their section, and the addresses that the linker is to write into them.
pub struct DataImage {
    pub bytes: Seq<u8>,
    /// The offset of the first byte in the section that holds the bytes.
    pub offset: nat,
    /// Offset and function of each function address.
    pub function_relocs: Seq<(u32, FuncId)>,
    /// Offset, data object and addend of each data address.
    pub data_relocs: Seq<(u32, DataId, i64)>,
}

/// What an object module holds, as far as this library reads it.
pub struct ModuleView {
    /// The names declared as functions.
    pub functions: Set<Seq<char>>,
    /// The data objects declared by name.
    pub data: Map<Seq<char>, DataDecl>,
    /// The data objects that are defined.
    pub definitions: Map<DataId, DataImage>,
}

/// What a data description holds.
pub struct DescriptionView {
    /// The contents, once they are set.
    pub init: Option<Seq<u8>>,
    pub align: Option<u64>,
    /// Whether the data was given a section of its own.
    pub custom_section: bool,
    /// The functions imported, by the index they were given.
    pub function_decls: Seq<FuncId>,
    /// The data objects imported, by the index they were given.
    pub data_decls: Seq<DataId>,
    /// Offset and index into `function_decls` of each function address.
    pub function_relocs: Seq<(u32, u32)>,
    /// Offset, index into `data_decls` and addend of each data address.
    pub data_relocs: Seq<(u32, u32, i64)>,
}

/// The declarations and definitions of an object module.
pub uninterp spec fn module_view(module: ObjectModule) -> ModuleView;

/// The contents of a data description.
pub uninterp spec fn description_view(data: DataDescription) -> DescriptionView;

/// The linkage of a symbol that was declared with `earlier` and is declared again with `later`.
pub open spec fn merged_linkage(earlier: Linkage, later: Linkage) -> Linkage {
    match earlier {
        Linkage::Export => Linkage::Export,
        Linkage::Hidden => match later {
            Linkage::Export => Linkage::Export,
            Linkage::Preemptible => Linkage::Preemptible,
            _ => Linkage::Hidden,
        },
        Linkage::Preemptible => match later {
            Linkage::Export => Linkage::Export,
            _ => Linkage::Preemptible,
        },
        Linkage::Local => match later {
            Linkage::Export => Linkage::Export,
            Linkage::Hidden => Linkage::Hidden,
            Linkage::Preemptible => Linkage::Preemptible,
            _ => Linkage::Local,
        },
        Linkage::Import => later,
    }
}

impl ModuleView {
    /// No declared name and no definition has this identifier.
    pub open spec fn is_fresh(self, id: DataId) -> bool {
        &&& !self.definitions.contains_key(id)
        &&& forall|name: Seq<char>| #[trigger]
            self.data.contains_key(name) ==> self.data[name].id != id
    }

    /// Some declared name has this identifier.
    pub open spec fn declares(self, id: DataId) -> bool {
        exists|name: Seq<char>| #[trigger] self.data.contains_key(name) && self.data[name].id == id
    }

    /// The data object is not declared as an import.
    pub open spec fn is_definable(self, id: DataId) -> bool {
        forall|name: Seq<char>| #[trigger]
            self.data.contains_key(name) && self.data[name].id == id ==> self.data[name].linkage
                != Linkage::Import
    }

    /// The declaration that `name` has after it is declared as data with `id`.
    pub open spec fn declaration(
        self,
        name: Seq<char>,
        id: DataId,
        linkage: Linkage,
        writable: bool,
    ) -> DataDecl {
        if self.data.contains_key(name) {
            DataDecl {
                id,
                linkage: merged_linkage(self.data[name].linkage, linkage),
                writable: self.data[name].writable || writable,
                tls: self.data[name].tls,
            }
        } else {
            DataDecl { id, linkage, writable, tls: false }
        }
    }

    /// The name can be that of data: it holds no NUL, and is not a function's.
    pub open spec fn accepts_name(self, name: Seq<char>) -> bool {
        !name.contains('\0') && !self.functions.contains(name)
    }

    /// How a declaration of `name` as data, not thread-local, ends.
    pub open spec fn declared(
        self,
        name: Seq<char>,
        linkage: Linkage,
        writable: bool,
        result: Result<DataId, ModuleFault>,
        after: ModuleView,
    ) -> bool {
        &&& after.functions == self.functions
        &&& after.definitions == self.definitions
        &&& match result {
            Ok(id) => {
                &&& self.accepts_name(name)
                &&& id.0 < u32::MAX
                &&& after.data == self.data.insert(
                    name,
                    self.declaration(name, id, linkage, writable),
                )
                &&& self.data.contains_key(name) ==> self.data[name].id == id
                &&& !self.data.contains_key(name) ==> self.is_fresh(id)
                &&& forall|other: Seq<char>| #[trigger]
                    after.data.contains_key(other) && after.data[other].id == id ==> other == name
            },
            Err(fault) => {
                &&& !self.accepts_name(name)
                &&& after.data == self.data
                &&& fault == if name.contains('\0') {
                    ModuleFault::Backend
                } else {
                    ModuleFault::IncompatibleDeclaration
                }
            },
        }
    }

    /// How a definition of the data object `id` by `data` ends.
    pub open spec fn defined(
        self,
        id: DataId,
        data: DescriptionView,
        result: Result<(), ModuleFault>,
        after: ModuleView,
    ) -> bool {
        &&& after.functions == self.functions
        &&& after.data == self.data
        &&& match result {
            Ok(()) => {
                &&& self.is_definable(id)
                &&& !self.definitions.contains_key(id)
                &&& after.definitions == self.definitions.insert(id, after.definitions[id])
                &&& data.defines(after.definitions[id])
            },
            Err(fault) => {
                &&& after.definitions == self.definitions
                &&& !self.is_definable(id) || self.definitions.contains_key(id)
                &&& fault == if !self.is_definable(id) {
                    ModuleFault::InvalidImportDefinition
                } else {
                    ModuleFault::DuplicateDefinition
                }
            },
        }
    }
}

impl DescriptionView {
    /// A description that nothing was written to.
    pub open spec fn empty() -> DescriptionView {
        DescriptionView {
            init: None,
            align: None,
            custom_section: false,
            function_decls: Seq::empty(),
            data_decls: Seq::empty(),
            function_relocs: Seq::empty(),
            data_relocs: Seq::empty(),
        }
    }

    /// Every address names a function or a data object that was imported.
    pub open spec fn relocs_in_range(self) -> bool {
        &&& forall|i: int|
            0 <= i < self.function_relocs.len() ==> (#[trigger] self.function_relocs[i]).1
                < self.function_decls.len()
        &&& forall|i: int|
            0 <= i < self.data_relocs.len() ==> (#[trigger] self.data_relocs[i]).1
                < self.data_decls.len()
    }

    /// The function addresses, each with the function that its index names.
    pub open spec fn resolved_function_relocs(self) -> Seq<(u32, FuncId)> {
        Seq::new(
            self.function_relocs.len(),
            |i: int|
                (self.function_relocs[i].0, self.function_decls[self.function_relocs[i].1 as int]),
        )
    }

    /// The data addresses, each with the data object that its index names.
    pub open spec fn resolved_data_relocs(self) -> Seq<(u32, DataId, i64)> {
        Seq::new(
            self.data_relocs.len(),
            |i: int|
                (
                    self.data_relocs[i].0,
                    self.data_decls[self.data_relocs[i].1 as int],
                    self.data_relocs[i].2,
                ),
        )
    }

    /// `image` is a data object that the description defines: the addresses
    /// are the description's, the bytes are its contents unless it has none,
    /// and the bytes start at a multiple of the alignment that it asks for.
    ///
    /// Of a definition without contents the bytes are left open: an object
    /// file may give it a byte to stand on.
    pub open spec fn defines(self, image: DataImage) -> bool {
        &&& image.function_relocs == self.resolved_function_relocs()
        &&& image.data_relocs == self.resolved_data_relocs()
        &&& self.init.unwrap().len() > 0 ==> image.bytes == self.init.unwrap()
        &&& self.align matches Some(align) ==> image.offset % (align as nat) == 0
    }
}

/// Whether `align` is a power of two.
pub open spec fn is_power_of_two(align: u64) -> bool {
    align != 0 && align & ((align - 1) as u64) == 0
}

/// Whether data can be placed at multiples of `align`: it is a power of two
/// and no wider than the machine's addresses.
pub open spec fn is_alignment(align: u64) -> bool {
    is_power_of_two(align) && align <= usize::MAX
}

/// `DataDescription::new`: a description that nothing was written to.
#[verifier::external_body]
pub(crate) fn new_description() -> (data: DataDescription)
    ensures
        description_view(data) == DescriptionView::empty(),
{
    DataDescription::new()
}

/// `DataDescription::define`: sets the contents of a description that has none yet.
#[verifier::external_body]
pub(crate) fn define_contents(data: &mut DataDescription, contents: Vec<u8>)
    requires
        description_view(*old(data)).init is None,
    ensures
        description_view(*final(data)) == (DescriptionView {
            init: Some(contents@),
            ..description_view(*old(data))
        }),
{
    data.define(contents.into_boxed_slice())
}

/// `DataDescription::set_align`: sets the alignment, which must be a power of two.
#[verifier::external_body]
pub(crate) fn set_align(data: &mut DataDescription, align: u64)
    requires
        is_power_of_two(align),
    ensures
        description_view(*final(data)) == (DescriptionView {
            align: Some(align),
            ..description_view(*old(data))
        }),
{
    data.set_align(align)
}

/// `Module::declare_func_in_data`: imports a function into a description and
/// returns the index that the import was given, which is the number of
/// functions imported before it.
#[verifier::external_body]
pub(crate) fn declare_func_in_data(
    module: &ObjectModule,
    func: FuncId,
    data: &mut DataDescription,
) -> (func_ref: u32)
    requires
        func.0 < u32::MAX,
        description_view(*old(data)).function_decls.len() < u32::MAX,
    ensures
        func_ref == description_view(*old(data)).function_decls.len(),
        description_view(*final(data)) == (DescriptionView {
            function_decls: description_view(*old(data)).function_decls.push(func),
            ..description_view(*old(data))
        }),
{
    module.declare_func_in_data(cranelift_module::FuncId::from_u32(func.0), data).as_u32()
}

/// `Module::declare_data_in_data`: imports a data object into a description
/// and returns the index that the import was given, which is the number of
/// data objects imported before it.
#[verifier::external_body]
pub(crate) fn declare_data_in_data(
    module: &ObjectModule,
    id: DataId,
    data: &mut DataDescription,
) -> (global_value: u32)
    requires
        id.0 < u32::MAX,
        description_view(*old(data)).data_decls.len() < u32::MAX,
    ensures
        global_value == description_view(*old(data)).data_decls.len(),
        description_view(*final(data)) == (DescriptionView {
            data_decls: description_view(*old(data)).data_decls.push(id),
            ..description_view(*old(data))
        }),
{
    module.declare_data_in_data(cranelift_module::DataId::from_u32(id.0), data).as_u32()
}

/// `DataDescription::write_function_addr`: asks for the address of an imported
/// function to be written at `offset`.
#[verifier::external_body]
pub(crate) fn write_function_addr(data: &mut DataDescription, offset: u32, func_ref: u32)
    requires
        func_ref < u32::MAX,
    ensures
        description_view(*final(data)) == (DescriptionView {
            function_relocs: description_view(*old(data)).function_relocs.push((offset, func_ref)),
            ..description_view(*old(data))
        }),
{
    data.write_function_addr(offset, cranelift::codegen::ir::FuncRef::from_u32(func_ref))
}

/// `DataDescription::write_data_addr`: asks for the address of an imported
/// data object, plus `addend`, to be written at `offset`.
#[verifier::external_body]
pub(crate) fn write_data_addr(
    data: &mut DataDescription,
    offset: u32,
    global_value: u32,
    addend: i64,
)
    requires
        global_value < u32::MAX,
    ensures
        description_view(*final(data)) == (DescriptionView {
            data_relocs: description_view(*old(data)).data_relocs.push(
                (offset, global_value, addend),
            ),
            ..description_view(*old(data))
        }),
{
    data.write_data_addr(offset, cranelift::codegen::ir::GlobalValue::from_u32(global_value), addend)
}

/// `Module::get_name`: the data object that is declared under `name`, if the
/// name is declared and is not a function's.
#[verifier::external_body]
pub(crate) fn get_data_name(module: &ObjectModule, name: &str) -> (id: Option<DataId>)
    ensures
        id == if module_view(*module).data.contains_key(name@) {
            Some(module_view(*module).data[name@].id)
        } else {
            None
        },
        id matches Some(found) ==> found.0 < u32::MAX,
{
    match module.get_name(name) {
        Some(FuncOrDataId::Data(id)) => Some(DataId(id.as_u32())),
        _ => None,
    }
}

/// `ModuleDeclarations::get_data_decl`: whether a declared data object is thread-local.
#[verifier::external_body]
pub(crate) fn is_thread_local(module: &ObjectModule, id: DataId) -> (tls: bool)
    requires
        id.0 < u32::MAX,
        module_view(*module).declares(id),
    ensures
        forall|name: Seq<char>| #[trigger]
            module_view(*module).data.contains_key(name) && module_view(*module).data[name].id
                == id ==> tls == module_view(*module).data[name].tls,
{
    module.declarations().get_data_decl(cranelift_module::DataId::from_u32(id.0)).tls
}

/// `Module::declare_data` of `ObjectModule`, for data that is not thread-local.
///
/// A name that holds a NUL, or that is a function's already, is refused and
/// nothing changes. Any other name is accepted: one that is new gets the next
/// identifier, one that is known keeps its identifier, and its linkage and
/// writability are merged with the ones given.
#[verifier::external_body]
pub(crate) fn declare_data(
    module: &mut ObjectModule,
    name: &str,
    linkage: Linkage,
    writable: bool,
) -> (result: Result<DataId, ModuleFault>)
    requires
        module_view(*old(module)).data.contains_key(name@) ==> !module_view(
            *old(module),
        ).data[name@].tls,
    ensures
        module_view(*old(module)).declared(
            name@,
            linkage,
            writable,
            result,
            module_view(*final(module)),
        ),
{
    let linkage = match linkage {
        Linkage::Import => cranelift_module::Linkage::Import,
        Linkage::Local => cranelift_module::Linkage::Local,
        Linkage::Preemptible => cranelift_module::Linkage::Preemptible,
        Linkage::Hidden => cranelift_module::Linkage::Hidden,
        Linkage::Export => cranelift_module::Linkage::Export,
    };
    match module.declare_data(name, linkage, writable, false) {
        Ok(id) => Ok(DataId(id.as_u32())),
        Err(ModuleError::IncompatibleDeclaration(_)) => Err(ModuleFault::IncompatibleDeclaration),
        Err(_) => Err(ModuleFault::Backend),
    }
}

/// `Module::define_data` of `ObjectModule`, for a description without a
/// section of its own.
///
/// A data object that is declared as an import, or that is defined already, is
/// refused and nothing changes. Any other gets a definition, and no other
/// definition changes. The definition has the description's addresses; its
/// bytes are the description's contents, appended to a section at the next
/// multiple of the larger of the description's alignment and the target's
/// symbol alignment, both powers of two. Where the contents are empty the
/// contract leaves the bytes open: in a Mach-O object such a definition takes
/// up one zero byte.
#[verifier::external_body]
pub(crate) fn define_data(module: &mut ObjectModule, id: DataId, data: &DataDescription) -> (result:
    Result<(), ModuleFault>)
    requires
        id.0 < u32::MAX,
        module_view(*old(module)).declares(id),
        description_view(*data).init is Some,
        description_view(*data).align matches Some(align) ==> is_alignment(align),
        !description_view(*data).custom_section,
        description_view(*data).relocs_in_range(),
    ensures
        module_view(*old(module)).defined(
            id,
            description_view(*data),
            result,
            module_view(*final(module)),
        ),
{
    match module.define_data(cranelift_module::DataId::from_u32(id.0), data) {
        Ok(()) => Ok(()),
        Err(ModuleError::DuplicateDefinition(_)) => Err(ModuleFault::DuplicateDefinition),
        Err(ModuleError::InvalidImportDefinition(_)) => Err(ModuleFault::InvalidImportDefinition),
        Err(_) => Err(ModuleFault::Backend),
    }
}

} // verus!
