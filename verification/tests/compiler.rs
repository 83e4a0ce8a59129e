//! End-to-end and component tests for the model-to-layout compiler.

use atdf2cpp::ident::{caption_to_ident, or_name};
use atdf2cpp::layout::{placement, plan_gaps, sort_registers};
use atdf2cpp::model::{
    Bitfield, Device, Error, Instance, Interrupt, Mcu, Module, Peripheral, Register,
    RegisterGroup, Signal, Value, ValueGroup,
};
use atdf2cpp::resolve::resolve_mcu;
use atdf2cpp::values::{expand_value_group, positioned_value};

fn s(t: &str) -> String {
    String::from(t)
}

fn reg(name: &str, offset: u32, size: u32, bitfields: Vec<Bitfield>) -> Register {
    Register { name: s(name), offset, size, bitfields }
}

fn mcu_of(modules: Vec<Module>, peripherals: Vec<Peripheral>) -> Mcu {
    Mcu {
        device: Device { name: s("testdev"), interrupts: vec![], peripherals },
        modules,
    }
}

#[test]
fn caption_to_ident_strips_punctuation() {
    let caption = s("ADC Noise Reduction (If Available)");
    let ident = caption_to_ident(&caption, None);
    assert_eq!(ident, "ADC_Noise_Reduction_If_Available");
}

#[test]
fn caption_to_ident_output_is_legal() {
    let caption = s("Br#own fo;x 77 (jumps)!");
    let ident = caption_to_ident(&caption, None);
    assert!(ident
        .chars()
        .all(|c| c.is_ascii_alphanumeric() || c == '_'));
    assert!(!ident.chars().next().unwrap().is_ascii_digit());
}

#[test]
fn caption_to_ident_guards_leading_digit() {
    let caption = s("0 detect");
    let ident = caption_to_ident(&caption, None);
    assert_eq!(ident, "_0_detect");
}

#[test]
fn caption_to_ident_prepends_prefix() {
    let caption = s("Force Output Compare");
    let prefix = s("FOC0A");
    let ident = caption_to_ident(&caption, Some(&prefix));
    assert_eq!(ident, "FOC0A_Force_Output_Compare");
}

#[test]
fn caption_to_ident_empty_caption_with_prefix() {
    let caption = s("");
    let prefix = s("WGM");
    let ident = caption_to_ident(&caption, Some(&prefix));
    assert_eq!(ident, "WGM_");
}

#[test]
fn or_name_prefers_caption() {
    let caption = s("A caption");
    let name = s("NAME");
    assert_eq!(or_name(&caption, &name), "A caption");
    let empty = s("");
    assert_eq!(or_name(&empty, &name), "NAME");
}

#[test]
fn positioned_value_shifts_into_mask() {
    assert_eq!(positioned_value(0b0011_0000, 2), Ok(0b0010_0000));
}

#[test]
fn positioned_value_identity_for_low_mask() {
    assert_eq!(positioned_value(0b0000_0111, 5), Ok(5));
}

#[test]
fn positioned_value_rejects_zero_mask() {
    assert_eq!(positioned_value(0, 2), Err(Error::InvalidMask));
}

#[test]
fn placement_boundaries() {
    assert_eq!(placement(0x1F), None);
    assert_eq!(placement(0x20), Some("io"));
    assert_eq!(placement(0x5F), Some("io"));
    assert_eq!(placement(0x60), Some("address"));
}

#[test]
fn expand_dedup_first_wins() {
    let field = s("WGM");
    let vg = ValueGroup {
        name: s("MODES"),
        values: vec![
            Value { name: s("A"), caption: s("Fast PWM"), value: 1 },
            Value { name: s("B"), caption: s("Fast, PWM"), value: 3 },
        ],
    };
    let mut done = Vec::new();
    let mut entries = Vec::new();
    let r = expand_value_group(&field, 0b0011_0000, &vg, &mut done, &mut entries);
    assert_eq!(r, Ok(()));
    assert_eq!(entries.len(), 1);
    assert_eq!(entries[0].ident, "WGM_Fast_PWM");
    assert_eq!(entries[0].const_name, "WGM_FAST_PWM");
    assert_eq!(entries[0].value, 1 << 4);
    assert_eq!(entries[0].caption, "Fast PWM");
}

#[test]
fn expand_keeps_distinct_values() {
    let field = s("CS");
    let vg = ValueGroup {
        name: s("CLOCKS"),
        values: vec![
            Value { name: s("N1"), caption: s("No prescale"), value: 1 },
            Value { name: s("N8"), caption: s("Divide by 8"), value: 2 },
        ],
    };
    let mut done = Vec::new();
    let mut entries = Vec::new();
    let r = expand_value_group(&field, 0b0000_0111, &vg, &mut done, &mut entries);
    assert_eq!(r, Ok(()));
    assert_eq!(entries.len(), 2);
    assert_eq!(entries[0].value, 1);
    assert_eq!(entries[1].value, 2);
}

#[test]
fn expand_zero_mask_is_fatal() {
    let field = s("X");
    let vg = ValueGroup {
        name: s("VG"),
        values: vec![Value { name: s("A"), caption: s("Some value"), value: 1 }],
    };
    let mut done = Vec::new();
    let mut entries = Vec::new();
    let r = expand_value_group(&field, 0, &vg, &mut done, &mut entries);
    assert_eq!(r, Err(Error::InvalidMask));
}

#[test]
fn sort_registers_orders_by_offset() {
    let regs = vec![
        reg("C", 0x40, 1, vec![]),
        reg("A", 0x20, 1, vec![]),
        reg("B", 0x30, 2, vec![]),
    ];
    let sorted = sort_registers(&regs);
    let names: Vec<&str> = sorted.iter().map(|r| r.name.as_str()).collect();
    assert_eq!(names, vec!["A", "B", "C"]);
}

#[test]
fn plan_gaps_allocates_console_then_command() {
    let regs = vec![reg("A", 0, 1, vec![]), reg("B", 3, 1, vec![])];
    let (console, command) = plan_gaps(&regs, None, None);
    assert_eq!(console, Some(1));
    assert_eq!(command, Some(2));
}

#[test]
fn plan_gaps_without_hole_allocates_nothing() {
    let regs = vec![reg("A", 0, 1, vec![]), reg("B", 1, 2, vec![]), reg("C", 3, 1, vec![])];
    let (console, command) = plan_gaps(&regs, None, None);
    assert_eq!(console, None);
    assert_eq!(command, None);
}

#[test]
fn plan_gaps_single_byte_hole_leaves_command_empty() {
    let regs = vec![reg("A", 0, 1, vec![]), reg("B", 2, 1, vec![])];
    let (console, command) = plan_gaps(&regs, None, None);
    assert_eq!(console, Some(1));
    assert_eq!(command, None);
}

#[test]
fn plan_gaps_keeps_existing_allocations() {
    let regs = vec![reg("A", 0, 1, vec![]), reg("B", 5, 1, vec![])];
    let (console, command) = plan_gaps(&regs, Some(0x77), Some(0x78));
    assert_eq!(console, Some(0x77));
    assert_eq!(command, Some(0x78));
}

#[test]
fn resolve_allocates_globally_once() {
    // Two groups, each with a gap: only the first group gets the console and
    // command bytes.
    let g1 = RegisterGroup {
        name: s("FIRST"),
        caption: s("first group"),
        registers: vec![reg("R0", 0x20, 1, vec![]), reg("R1", 0x24, 1, vec![])],
    };
    let g2 = RegisterGroup {
        name: s("SECOND"),
        caption: s("second group"),
        registers: vec![reg("S0", 0x40, 1, vec![]), reg("S1", 0x44, 1, vec![])],
    };
    let m = Module {
        name: s("M"),
        register_groups: vec![g1, g2],
        value_groups: vec![],
    };
    let plan = resolve_mcu(&mcu_of(vec![m], vec![])).unwrap();
    assert_eq!(plan.console, Some(0x21));
    assert_eq!(plan.command, Some(0x22));
}

#[test]
fn resolve_fallback_type_emitted_once_and_shared() {
    // Two registers without bitfields in one group matching a signal-bearing
    // instance: one SignalFlags declaration, referenced by both registers.
    let group = RegisterGroup {
        name: s("PORTB"),
        caption: s("I/O port B"),
        registers: vec![reg("PORTB", 0x38, 1, vec![]), reg("DDRB", 0x37, 1, vec![])],
    };
    let m = Module { name: s("M"), register_groups: vec![group], value_groups: vec![] };
    let p = Peripheral {
        instances: vec![Instance {
            name: s("PORTB"),
            signals: vec![
                Signal { pad: s("PB0"), index: Some(0) },
                Signal { pad: s("PB1"), index: Some(1) },
            ],
        }],
    };
    let plan = resolve_mcu(&mcu_of(vec![m], vec![p])).unwrap();
    let gp = &plan.modules[0].groups[0];
    assert_eq!(gp.scope_name, "Portb");
    assert_eq!(gp.flag_decls.len(), 1);
    assert_eq!(gp.flag_decls[0].ty_name, "PortbSignalFlags");
    assert_eq!(gp.flag_decls[0].entries.len(), 2);
    assert_eq!(gp.flag_decls[0].entries[0].ident, "PB0");
    assert_eq!(gp.flag_decls[0].entries[0].value, 1);
    assert_eq!(gp.flag_decls[0].entries[1].value, 2);
    assert_eq!(gp.registers.len(), 2);
    // Address order: DDRB at 0x37 comes before PORTB at 0x38.
    assert_eq!(gp.registers[0].doc_name, "DDRB");
    assert_eq!(gp.registers[1].doc_name, "PORTB");
    assert_eq!(gp.registers[0].flag_type.as_deref(), Some("PortbSignalFlags"));
    assert_eq!(gp.registers[1].flag_type.as_deref(), Some("PortbSignalFlags"));
}

#[test]
fn resolve_register_without_match_stays_plain() {
    let group = RegisterGroup {
        name: s("MISC"),
        caption: s("miscellaneous"),
        registers: vec![reg("GPIOR0", 0x3E, 1, vec![])],
    };
    let m = Module { name: s("M"), register_groups: vec![group], value_groups: vec![] };
    let plan = resolve_mcu(&mcu_of(vec![m], vec![])).unwrap();
    let gp = &plan.modules[0].groups[0];
    assert_eq!(gp.flag_decls.len(), 0);
    assert_eq!(gp.registers.len(), 1);
    assert_eq!(gp.registers[0].flag_type, None);
    assert_eq!(gp.registers[0].field_name, "gpior0");
    assert_eq!(gp.registers[0].attribute, "io");
}

#[test]
fn resolve_excluded_register_is_skipped() {
    let group = RegisterGroup {
        name: s("LOW"),
        caption: s("below the io space"),
        registers: vec![reg("HIDDEN", 0x10, 1, vec![]), reg("SEEN", 0x60, 1, vec![])],
    };
    let m = Module { name: s("M"), register_groups: vec![group], value_groups: vec![] };
    let plan = resolve_mcu(&mcu_of(vec![m], vec![])).unwrap();
    let gp = &plan.modules[0].groups[0];
    assert_eq!(gp.registers.len(), 1);
    assert_eq!(gp.registers[0].doc_name, "SEEN");
    assert_eq!(gp.registers[0].attribute, "address");
}

#[test]
fn resolve_explicit_bitfields_make_a_flag_type() {
    let group = RegisterGroup {
        name: s("TIMER"),
        caption: s("a timer"),
        registers: vec![reg(
            "TCCR1A",
            0x25,
            1,
            vec![Bitfield {
                name: s("COM1A"),
                caption: s("Compare Output Mode"),
                mask: 0b1100_0000,
                values: None,
            }],
        )],
    };
    let m = Module { name: s("M"), register_groups: vec![group], value_groups: vec![] };
    let plan = resolve_mcu(&mcu_of(vec![m], vec![])).unwrap();
    let gp = &plan.modules[0].groups[0];
    assert_eq!(gp.scope_name, "Timer");
    assert_eq!(gp.flag_decls.len(), 1);
    assert_eq!(gp.flag_decls[0].ty_name, "TimerTccr1aFlags");
    assert_eq!(gp.flag_decls[0].size, 1);
    let e = &gp.flag_decls[0].entries[0];
    assert_eq!(e.ident, "COM1A");
    assert_eq!(e.const_name, "COM1A");
    assert_eq!(e.value, 0b1100_0000);
    assert_eq!(e.caption, "Compare Output Mode");
    assert_eq!(gp.registers[0].field_name, "tccr1a");
    assert_eq!(gp.registers[0].flag_type.as_deref(), Some("TimerTccr1aFlags"));
}

#[test]
fn resolve_expands_value_groups_against_mask() {
    let group = RegisterGroup {
        name: s("TIMER"),
        caption: s("a timer"),
        registers: vec![reg(
            "TCCR0",
            0x33,
            1,
            vec![Bitfield {
                name: s("WGM0"),
                caption: s("Waveform Generation Mode"),
                mask: 0b0011_0000,
                values: Some(s("WAVEFORMS")),
            }],
        )],
    };
    let vg = ValueGroup {
        name: s("WAVEFORMS"),
        values: vec![
            Value { name: s("NORMAL"), caption: s("Normal"), value: 0 },
            Value { name: s("PWM"), caption: s("Fast PWM"), value: 2 },
        ],
    };
    let m = Module { name: s("M"), register_groups: vec![group], value_groups: vec![vg] };
    let plan = resolve_mcu(&mcu_of(vec![m], vec![])).unwrap();
    let d = &plan.modules[0].groups[0].flag_decls[0];
    assert_eq!(d.entries.len(), 2);
    assert_eq!(d.entries[0].ident, "WGM0_Normal");
    assert_eq!(d.entries[0].value, 0);
    assert_eq!(d.entries[1].ident, "WGM0_Fast_PWM");
    assert_eq!(d.entries[1].const_name, "WGM0_FAST_PWM");
    assert_eq!(d.entries[1].value, 2 << 4);
}

#[test]
fn resolve_broken_value_group_link_is_fatal() {
    let group = RegisterGroup {
        name: s("TIMER"),
        caption: s("a timer"),
        registers: vec![reg(
            "TCCR0",
            0x33,
            1,
            vec![Bitfield {
                name: s("WGM0"),
                caption: s("Waveform Generation Mode"),
                mask: 0b0011_0000,
                values: Some(s("MISSING")),
            }],
        )],
    };
    let m = Module { name: s("M"), register_groups: vec![group], value_groups: vec![] };
    assert_eq!(resolve_mcu(&mcu_of(vec![m], vec![])).err(), Some(Error::BrokenModelLink));
}

#[test]
fn resolve_zero_mask_with_values_is_fatal() {
    let group = RegisterGroup {
        name: s("TIMER"),
        caption: s("a timer"),
        registers: vec![reg(
            "TCCR0",
            0x33,
            1,
            vec![Bitfield {
                name: s("WGM0"),
                caption: s("Waveform Generation Mode"),
                mask: 0,
                values: Some(s("WAVEFORMS")),
            }],
        )],
    };
    let vg = ValueGroup {
        name: s("WAVEFORMS"),
        values: vec![Value { name: s("NORMAL"), caption: s("Normal"), value: 0 }],
    };
    let m = Module { name: s("M"), register_groups: vec![group], value_groups: vec![vg] };
    assert_eq!(resolve_mcu(&mcu_of(vec![m], vec![])).err(), Some(Error::InvalidMask));
}

#[test]
fn resolve_shared_dedup_state_spans_bitfields() {
    // Two bitfields of one register referencing the same value group: the
    // second expansion contributes nothing because the identifiers repeat.
    let bf = |name: &str| Bitfield {
        name: s(name),
        caption: s(""),
        mask: 0b0000_0011,
        values: Some(s("VG")),
    };
    let group = RegisterGroup {
        name: s("G"),
        caption: s("g"),
        registers: vec![reg("R", 0x20, 1, vec![bf("F"), bf("F")])],
    };
    let vg = ValueGroup {
        name: s("VG"),
        values: vec![Value { name: s("A"), caption: s("Alpha"), value: 1 }],
    };
    let m = Module { name: s("M"), register_groups: vec![group], value_groups: vec![vg] };
    let plan = resolve_mcu(&mcu_of(vec![m], vec![])).unwrap();
    let d = &plan.modules[0].groups[0].flag_decls[0];
    assert_eq!(d.entries.len(), 1);
    assert_eq!(d.entries[0].ident, "F_Alpha");
}

#[test]
fn resolve_sixteen_bit_register_keeps_its_size() {
    let group = RegisterGroup {
        name: s("ADC"),
        caption: s("the adc"),
        registers: vec![reg("ADC", 0x78, 2, vec![])],
    };
    let m = Module { name: s("M"), register_groups: vec![group], value_groups: vec![] };
    let plan = resolve_mcu(&mcu_of(vec![m], vec![])).unwrap();
    let gp = &plan.modules[0].groups[0];
    assert_eq!(gp.registers[0].size, 2);
    assert_eq!(gp.registers[0].attribute, "address");
}

#[test]
fn caption_to_ident_punctuation_only_caption_is_empty() {
    let caption = s("(((");
    let ident = caption_to_ident(&caption, None);
    assert_eq!(ident, "");
}

#[test]
fn resolve_duplicate_explicit_bitfields_keep_first() {
    // Two explicit bitfields with the same name in one register: one
    // enumerator, carrying the first one's mask and caption.
    let group = RegisterGroup {
        name: s("TIMER"),
        caption: s("a timer"),
        registers: vec![reg(
            "TCCR0",
            0x33,
            1,
            vec![
                Bitfield {
                    name: s("CS0"),
                    caption: s("Clock Select"),
                    mask: 0b0000_0111,
                    values: None,
                },
                Bitfield {
                    name: s("CS0"),
                    caption: s("Clock Select Again"),
                    mask: 0b0111_0000,
                    values: None,
                },
            ],
        )],
    };
    let m = Module { name: s("M"), register_groups: vec![group], value_groups: vec![] };
    let plan = resolve_mcu(&mcu_of(vec![m], vec![])).unwrap();
    let d = &plan.modules[0].groups[0].flag_decls[0];
    assert_eq!(d.entries.len(), 1);
    assert_eq!(d.entries[0].ident, "CS0");
    assert_eq!(d.entries[0].value, 0b0000_0111);
    assert_eq!(d.entries[0].caption, "Clock Select");
}

#[test]
fn resolve_duplicate_signal_pads_keep_first() {
    let group = RegisterGroup {
        name: s("PORTC"),
        caption: s("I/O port C"),
        registers: vec![reg("PORTC", 0x35, 1, vec![])],
    };
    let m = Module { name: s("M"), register_groups: vec![group], value_groups: vec![] };
    let p = Peripheral {
        instances: vec![Instance {
            name: s("PORTC"),
            signals: vec![
                Signal { pad: s("PC0"), index: Some(0) },
                Signal { pad: s("PC0"), index: Some(3) },
                Signal { pad: s("PC1"), index: Some(1) },
            ],
        }],
    };
    let plan = resolve_mcu(&mcu_of(vec![m], vec![p])).unwrap();
    let d = &plan.modules[0].groups[0].flag_decls[0];
    assert_eq!(d.entries.len(), 2);
    assert_eq!(d.entries[0].ident, "PC0");
    assert_eq!(d.entries[0].value, 1);
    assert_eq!(d.entries[1].ident, "PC1");
    assert_eq!(d.entries[1].value, 2);
}
