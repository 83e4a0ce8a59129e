//! The hardware-description input model and the derived layout entities.
//!
//! Input entities mirror the object graph handed in by the description
//! loader; derived entities are rebuilt from scratch on every run and carry
//! the fully resolved flag sets, register declarations and auxiliary
//! addresses that the emitter serializes.

use vstd::prelude::*;

verus! {

/// One symbolic entry of a value enumeration; `value` is unpositioned
/// (expressed as if the consuming field started at bit 0).
pub struct Value {
    pub name: String,
    pub caption: String,
    pub value: u32,
}

/// A named, reusable enumeration of symbolic values.
pub struct ValueGroup {
    pub name: String,
    pub values: Vec<Value>,
}

/// A named, masked subrange of bits within a register; `values` optionally
/// names a `ValueGroup` of the same module.
pub struct Bitfield {
    pub name: String,
    pub caption: String,
    pub mask: u32,
    pub values: Option<String>,
}

/// A register: a byte offset within its group's address space and a size in
/// bytes (1 or 2).
pub struct Register {
    pub name: String,
    pub offset: u32,
    pub size: u32,
    pub bitfields: Vec<Bitfield>,
}

/// A named collection of registers sharing one address space.
pub struct RegisterGroup {
    pub name: String,
    pub caption: String,
    pub registers: Vec<Register>,
}

/// A named collection of register groups and value groups.
pub struct Module {
    pub name: String,
    pub register_groups: Vec<RegisterGroup>,
    pub value_groups: Vec<ValueGroup>,
}

/// A pad signal of a peripheral instance, optionally bound to a bit index.
pub struct Signal {
    pub pad: String,
    pub index: Option<u8>,
}

/// A peripheral instance; its name is matched against register-group names
/// when synthesizing fallback signal flags.
pub struct Instance {
    pub name: String,
    pub signals: Vec<Signal>,
}

/// A peripheral: a list of instances.
pub struct Peripheral {
    pub instances: Vec<Instance>,
}

/// An interrupt with its vector index.
pub struct Interrupt {
    pub name: String,
    pub index: u32,
}

/// The device: its interrupts and peripherals.
pub struct Device {
    pub name: String,
    pub interrupts: Vec<Interrupt>,
    pub peripherals: Vec<Peripheral>,
}

/// The whole hardware description of one microcontroller.
pub struct Mcu {
    pub device: Device,
    pub modules: Vec<Module>,
}

// ------------------------------------------------------------------
// Mathematical views of the input entities.

#[verifier::ext_equal]
pub ghost struct ValueV {
    pub name: Seq<char>,
    pub caption: Seq<char>,
    pub value: u32,
}

impl View for Value {
    type V = ValueV;

    open spec fn view(&self) -> ValueV {
        ValueV { name: self.name@, caption: self.caption@, value: self.value }
    }
}

#[verifier::ext_equal]
pub ghost struct ValueGroupV {
    pub name: Seq<char>,
    pub values: Seq<ValueV>,
}

impl View for ValueGroup {
    type V = ValueGroupV;

    open spec fn view(&self) -> ValueGroupV {
        ValueGroupV { name: self.name@, values: self.values@.map_values(|v: Value| v@) }
    }
}

#[verifier::ext_equal]
pub ghost struct BitfieldV {
    pub name: Seq<char>,
    pub caption: Seq<char>,
    pub mask: u32,
    pub values: Option<Seq<char>>,
}

impl View for Bitfield {
    type V = BitfieldV;

    open spec fn view(&self) -> BitfieldV {
        BitfieldV {
            name: self.name@,
            caption: self.caption@,
            mask: self.mask,
            values: match self.values {
                Option::Some(s) => Option::Some(s@),
                Option::None => Option::None,
            },
        }
    }
}

#[verifier::ext_equal]
pub ghost struct RegisterV {
    pub name: Seq<char>,
    pub offset: u32,
    pub size: u32,
    pub bitfields: Seq<BitfieldV>,
}

impl View for Register {
    type V = RegisterV;

    open spec fn view(&self) -> RegisterV {
        RegisterV {
            name: self.name@,
            offset: self.offset,
            size: self.size,
            bitfields: self.bitfields@.map_values(|b: Bitfield| b@),
        }
    }
}

#[verifier::ext_equal]
pub ghost struct RegisterGroupV {
    pub name: Seq<char>,
    pub caption: Seq<char>,
    pub registers: Seq<RegisterV>,
}

impl View for RegisterGroup {
    type V = RegisterGroupV;

    open spec fn view(&self) -> RegisterGroupV {
        RegisterGroupV {
            name: self.name@,
            caption: self.caption@,
            registers: self.registers@.map_values(|r: Register| r@),
        }
    }
}

#[verifier::ext_equal]
pub ghost struct ModuleV {
    pub name: Seq<char>,
    pub register_groups: Seq<RegisterGroupV>,
    pub value_groups: Seq<ValueGroupV>,
}

impl View for Module {
    type V = ModuleV;

    open spec fn view(&self) -> ModuleV {
        ModuleV {
            name: self.name@,
            register_groups: self.register_groups@.map_values(|g: RegisterGroup| g@),
            value_groups: self.value_groups@.map_values(|g: ValueGroup| g@),
        }
    }
}

#[verifier::ext_equal]
pub ghost struct SignalV {
    pub pad: Seq<char>,
    pub index: Option<u8>,
}

impl View for Signal {
    type V = SignalV;

    open spec fn view(&self) -> SignalV {
        SignalV { pad: self.pad@, index: self.index }
    }
}

#[verifier::ext_equal]
pub ghost struct InstanceV {
    pub name: Seq<char>,
    pub signals: Seq<SignalV>,
}

impl View for Instance {
    type V = InstanceV;

    open spec fn view(&self) -> InstanceV {
        InstanceV { name: self.name@, signals: self.signals@.map_values(|s: Signal| s@) }
    }
}

#[verifier::ext_equal]
pub ghost struct PeripheralV {
    pub instances: Seq<InstanceV>,
}

impl View for Peripheral {
    type V = PeripheralV;

    open spec fn view(&self) -> PeripheralV {
        PeripheralV { instances: self.instances@.map_values(|i: Instance| i@) }
    }
}

#[verifier::ext_equal]
pub ghost struct InterruptV {
    pub name: Seq<char>,
    pub index: u32,
}

impl View for Interrupt {
    type V = InterruptV;

    open spec fn view(&self) -> InterruptV {
        InterruptV { name: self.name@, index: self.index }
    }
}

#[verifier::ext_equal]
pub ghost struct DeviceV {
    pub name: Seq<char>,
    pub interrupts: Seq<InterruptV>,
    pub peripherals: Seq<PeripheralV>,
}

impl View for Device {
    type V = DeviceV;

    open spec fn view(&self) -> DeviceV {
        DeviceV {
            name: self.name@,
            interrupts: self.interrupts@.map_values(|i: Interrupt| i@),
            peripherals: self.peripherals@.map_values(|p: Peripheral| p@),
        }
    }
}

#[verifier::ext_equal]
pub ghost struct McuV {
    pub device: DeviceV,
    pub modules: Seq<ModuleV>,
}

impl View for Mcu {
    type V = McuV;

    open spec fn view(&self) -> McuV {
        McuV { device: self.device@, modules: self.modules@.map_values(|m: Module| m@) }
    }
}

/// The ways a run can fail while resolving the model.
#[derive(Clone, Copy, Debug, PartialEq, Eq, Structural)]
pub enum Error {
    /// A bitfield references a value-group name absent from its module.
    BrokenModelLink,
    /// A bitfield mask of zero reached the value-positioning shift.
    InvalidMask,
}

// ------------------------------------------------------------------
// Derived entities.

/// One resolved flag constant: the deduplication identifier, the emitted
/// constant name, the positioned mask value, and the display caption.
pub struct FlagEntry {
    pub ident: String,
    pub const_name: String,
    pub value: u32,
    pub caption: String,
}

#[verifier::ext_equal]
pub ghost struct FlagEntryV {
    pub ident: Seq<char>,
    pub const_name: Seq<char>,
    pub value: u32,
    pub caption: Seq<char>,
}

impl View for FlagEntry {
    type V = FlagEntryV;

    open spec fn view(&self) -> FlagEntryV {
        FlagEntryV {
            ident: self.ident@,
            const_name: self.const_name@,
            value: self.value,
            caption: self.caption@,
        }
    }
}

/// The dedup state threaded through value expansion: the identifiers already
/// seen and the entries kept so far.
#[verifier::ext_equal]
pub ghost struct ExpandState {
    pub done: Seq<Seq<char>>,
    pub entries: Seq<FlagEntryV>,
}

/// One flag-type declaration: its type name, the underlying register size in
/// bytes, and its entries in source order.
pub struct FlagDecl {
    pub ty_name: String,
    pub size: u32,
    pub entries: Vec<FlagEntry>,
}

#[verifier::ext_equal]
pub ghost struct FlagDeclV {
    pub ty_name: Seq<char>,
    pub size: u32,
    pub entries: Seq<FlagEntryV>,
}

impl View for FlagDecl {
    type V = FlagDeclV;

    open spec fn view(&self) -> FlagDeclV {
        FlagDeclV {
            ty_name: self.ty_name@,
            size: self.size,
            entries: self.entries@.map_values(|e: FlagEntry| e@),
        }
    }
}

/// One declarable register: its emitted field name, the original name for
/// documentation, address, size, placement attribute, and the resolved flag
/// type if any.
pub struct RegisterDecl {
    pub field_name: String,
    pub doc_name: String,
    pub offset: u32,
    pub size: u32,
    pub attribute: String,
    pub flag_type: Option<String>,
}

#[verifier::ext_equal]
pub ghost struct RegisterDeclV {
    pub field_name: Seq<char>,
    pub doc_name: Seq<char>,
    pub offset: u32,
    pub size: u32,
    pub attribute: Seq<char>,
    pub flag_type: Option<Seq<char>>,
}

impl View for RegisterDecl {
    type V = RegisterDeclV;

    open spec fn view(&self) -> RegisterDeclV {
        RegisterDeclV {
            field_name: self.field_name@,
            doc_name: self.doc_name@,
            offset: self.offset,
            size: self.size,
            attribute: self.attribute@,
            flag_type: match self.flag_type {
                Option::Some(t) => Option::Some(t@),
                Option::None => Option::None,
            },
        }
    }
}

/// The resolved layout of one register group: its scope name, the flag-type
/// declarations in emission order, and the address-ordered declarable
/// registers.
pub struct GroupPlan {
    pub scope_name: String,
    pub group_name: String,
    pub group_caption: String,
    pub flag_decls: Vec<FlagDecl>,
    pub registers: Vec<RegisterDecl>,
}

#[verifier::ext_equal]
pub ghost struct GroupPlanV {
    pub scope_name: Seq<char>,
    pub group_name: Seq<char>,
    pub group_caption: Seq<char>,
    pub flag_decls: Seq<FlagDeclV>,
    pub registers: Seq<RegisterDeclV>,
}

impl View for GroupPlan {
    type V = GroupPlanV;

    open spec fn view(&self) -> GroupPlanV {
        GroupPlanV {
            scope_name: self.scope_name@,
            group_name: self.group_name@,
            group_caption: self.group_caption@,
            flag_decls: self.flag_decls@.map_values(|d: FlagDecl| d@),
            registers: self.registers@.map_values(|d: RegisterDecl| d@),
        }
    }
}

/// The resolved groups of one module, in model order.
pub struct ModulePlan {
    pub groups: Vec<GroupPlan>,
}

#[verifier::ext_equal]
pub ghost struct ModulePlanV {
    pub groups: Seq<GroupPlanV>,
}

impl View for ModulePlan {
    type V = ModulePlanV;

    open spec fn view(&self) -> ModulePlanV {
        ModulePlanV { groups: self.groups@.map_values(|g: GroupPlan| g@) }
    }
}

/// The fully resolved layout of one run: per-module group plans plus the
/// run-wide auxiliary console/command addresses, if any gap offered room.
pub struct McuPlan {
    pub modules: Vec<ModulePlan>,
    pub console: Option<u32>,
    pub command: Option<u32>,
}

#[verifier::ext_equal]
pub ghost struct McuPlanV {
    pub modules: Seq<ModulePlanV>,
    pub console: Option<u32>,
    pub command: Option<u32>,
}

impl View for McuPlan {
    type V = McuPlanV;

    open spec fn view(&self) -> McuPlanV {
        McuPlanV {
            modules: self.modules@.map_values(|m: ModulePlan| m@),
            console: self.console,
            command: self.command,
        }
    }
}

// ------------------------------------------------------------------
// Well-formedness of the input model.

/// A register has a positive size and its byte interval fits the address type.
pub open spec fn wf_register(r: RegisterV) -> bool {
    1 <= r.size && r.offset + r.size <= 0xFFFF_FFFF
}

/// Two registers occupy disjoint byte intervals.
pub open spec fn regs_disjoint(a: RegisterV, b: RegisterV) -> bool {
    a.offset + a.size <= b.offset || b.offset + b.size <= a.offset
}

/// Offsets are unique within a group and register intervals do not overlap.
pub open spec fn wf_group(g: RegisterGroupV) -> bool {
    &&& forall|i: int| 0 <= i < g.registers.len() ==> wf_register(#[trigger] g.registers[i])
    &&& forall|i: int, j: int|
        0 <= i < j < g.registers.len() ==> g.registers[i].offset != g.registers[j].offset
    &&& forall|i: int, j: int|
        0 <= i < j < g.registers.len() ==> regs_disjoint(g.registers[i], g.registers[j])
}

/// Every bit-indexed signal names a bit inside a 32-bit mask.
pub open spec fn wf_instance(inst: InstanceV) -> bool {
    forall|i: int|
        0 <= i < inst.signals.len() ==> match (#[trigger] inst.signals[i]).index {
            Option::Some(b) => b < 32,
            Option::None => true,
        }
}

/// The whole model is well formed.
pub open spec fn wf_mcu(mcu: McuV) -> bool {
    &&& forall|m: int, g: int|
        0 <= m < mcu.modules.len() && 0 <= g < mcu.modules[m].register_groups.len() ==> wf_group(
            #[trigger] mcu.modules[m].register_groups[g],
        )
    &&& forall|p: int, i: int|
        0 <= p < mcu.device.peripherals.len() && 0 <= i
            < mcu.device.peripherals[p].instances.len() ==> wf_instance(
            #[trigger] mcu.device.peripherals[p].instances[i],
        )
}

} // verus!
