//! Symbol font codepoint tables: each maps a byte code of a legacy symbol
//! font to the Unicode character it draws.

use vstd::prelude::*;

verus! {

/// The Wingdings table.
pub open spec fn spec_wingdings_char(cp: u8) -> Option<char> {
    match cp {
        0x21 => Some('\u{1F589}'),
        0x22 => Some('\u{2702}'),
        0x23 => Some('\u{2701}'),
        0x24 => Some('\u{1F453}'),
        0x25 => Some('\u{1F56D}'),
        0x26 => Some('\u{1F56E}'),
        0x27 => Some('\u{1F56F}'),
        0x28 => Some('\u{1F57F}'),
        0x29 => Some('\u{2706}'),
        0x2A => Some('\u{1F582}'),
        0x2B => Some('\u{1F583}'),
        0x2C => Some('\u{1F4EA}'),
        0x2D => Some('\u{1F4EB}'),
        0x2E => Some('\u{1F4EC}'),
        0x2F => Some('\u{1F4ED}'),
        0x30 => Some('\u{1F4C1}'),
        0x31 => Some('\u{1F4C2}'),
        0x32 => Some('\u{1F4C4}'),
        0x33 => Some('\u{1F5CF}'),
        0x34 => Some('\u{1F5D0}'),
        0x35 => Some('\u{1F5C4}'),
        0x36 => Some('\u{231B}'),
        0x37 => Some('\u{1F5AE}'),
        0x38 => Some('\u{1F5B0}'),
        0x39 => Some('\u{1F5B2}'),
        0x3A => Some('\u{1F5B3}'),
        0x3B => Some('\u{1F5B4}'),
        0x3C => Some('\u{1F5AB}'),
        0x3D => Some('\u{1F5AC}'),
        0x3E => Some('\u{2707}'),
        0x3F => Some('\u{270D}'),
        0x40 => Some('\u{1F58E}'),
        0x41 => Some('\u{270C}'),
        0x42 => Some('\u{1F44C}'),
        0x43 => Some('\u{1F44D}'),
        0x44 => Some('\u{1F44E}'),
        0x45 => Some('\u{261C}'),
        0x46 => Some('\u{261E}'),
        0x47 => Some('\u{261D}'),
        0x48 => Some('\u{261F}'),
        0x49 => Some('\u{1F590}'),
        0x4A => Some('\u{263A}'),
        0x4B => Some('\u{1F610}'),
        0x4C => Some('\u{2639}'),
        0x4D => Some('\u{1F4A3}'),
        0x4E => Some('\u{2620}'),
        0x4F => Some('\u{1F3F3}'),
        0x50 => Some('\u{1F3F1}'),
        0x51 => Some('\u{2708}'),
        0x52 => Some('\u{263C}'),
        0x53 => Some('\u{1F4A7}'),
        0x54 => Some('\u{2744}'),
        0x55 => Some('\u{1F546}'),
        0x56 => Some('\u{271E}'),
        0x57 => Some('\u{1F548}'),
        0x58 => Some('\u{2720}'),
        0x59 => Some('\u{2721}'),
        0x5A => Some('\u{262A}'),
        0x5B => Some('\u{262F}'),
        0x5C => Some('\u{0950}'),
        0x5D => Some('\u{2638}'),
        0x5E => Some('\u{2648}'),
        0x5F => Some('\u{2649}'),
        0x60 => Some('\u{264A}'),
        0x61 => Some('\u{264B}'),
        0x62 => Some('\u{264C}'),
        0x63 => Some('\u{264D}'),
        0x64 => Some('\u{264E}'),
        0x65 => Some('\u{264F}'),
        0x66 => Some('\u{2650}'),
        0x67 => Some('\u{2651}'),
        0x68 => Some('\u{2652}'),
        0x69 => Some('\u{2653}'),
        0x6A => Some('\u{1F670}'),
        0x6B => Some('\u{1F675}'),
        0x6C => Some('\u{25CF}'),
        0x6D => Some('\u{1F53E}'),
        0x6E => Some('\u{25A0}'),
        0x6F => Some('\u{25A1}'),
        0x70 => Some('\u{1F790}'),
        0x71 => Some('\u{2751}'),
        0x72 => Some('\u{2752}'),
        0x73 => Some('\u{2B27}'),
        0x74 => Some('\u{29EB}'),
        0x75 => Some('\u{25C6}'),
        0x76 => Some('\u{2756}'),
        0x77 => Some('\u{2B25}'),
        0x78 => Some('\u{2327}'),
        0x79 => Some('\u{2BB9}'),
        0x7A => Some('\u{2318}'),
        0x7B => Some('\u{1F3F5}'),
        0x7C => Some('\u{1F3F6}'),
        0x7D => Some('\u{1F676}'),
        0x7E => Some('\u{1F677}'),
        0x80 => Some('\u{24EA}'),
        0x81 => Some('\u{2460}'),
        0x82 => Some('\u{2461}'),
        0x83 => Some('\u{2462}'),
        0x84 => Some('\u{2463}'),
        0x85 => Some('\u{2464}'),
        0x86 => Some('\u{2465}'),
        0x87 => Some('\u{2466}'),
        0x88 => Some('\u{2467}'),
        0x89 => Some('\u{2468}'),
        0x8A => Some('\u{2469}'),
        0x8B => Some('\u{24FF}'),
        0x8C => Some('\u{2776}'),
        0x8D => Some('\u{2777}'),
        0x8E => Some('\u{2778}'),
        0x8F => Some('\u{2779}'),
        0x90 => Some('\u{277A}'),
        0x91 => Some('\u{277B}'),
        0x92 => Some('\u{277C}'),
        0x93 => Some('\u{277D}'),
        0x94 => Some('\u{277E}'),
        0x95 => Some('\u{277F}'),
        0x96 => Some('\u{1F662}'),
        0x97 => Some('\u{1F660}'),
        0x98 => Some('\u{1F661}'),
        0x99 => Some('\u{1F663}'),
        0x9A => Some('\u{1F65E}'),
        0x9B => Some('\u{1F65C}'),
        0x9C => Some('\u{1F65D}'),
        0x9D => Some('\u{1F65F}'),
        0x9E => Some('\u{00B7}'),
        0x9F => Some('\u{2022}'),
        0xA1 => Some('\u{26AA}'),
        0xA2 => Some('\u{1F786}'),
        0xA3 => Some('\u{1F788}'),
        0xA4 => Some('\u{25C9}'),
        0xA5 => Some('\u{25CE}'),
        0xA6 => Some('\u{1F53F}'),
        0xA7 => Some('\u{25AA}'),
        0xA8 => Some('\u{25FB}'),
        0xA9 => Some('\u{1F7C2}'),
        0xAA => Some('\u{2726}'),
        0xAB => Some('\u{2605}'),
        0xAC => Some('\u{2736}'),
        0xAD => Some('\u{2734}'),
        0xAE => Some('\u{2739}'),
        0xAF => Some('\u{2735}'),
        0xB0 => Some('\u{2BD0}'),
        0xB1 => Some('\u{2316}'),
        0xB2 => Some('\u{27E1}'),
        0xB3 => Some('\u{2311}'),
        0xB4 => Some('\u{2BD1}'),
        0xB5 => Some('\u{272A}'),
        0xB6 => Some('\u{2730}'),
        0xB7 => Some('\u{1F550}'),
        0xB8 => Some('\u{1F551}'),
        0xB9 => Some('\u{1F552}'),
        0xBA => Some('\u{1F553}'),
        0xBB => Some('\u{1F554}'),
        0xBC => Some('\u{1F555}'),
        0xBD => Some('\u{1F556}'),
        0xBE => Some('\u{1F557}'),
        0xBF => Some('\u{1F558}'),
        0xC0 => Some('\u{1F559}'),
        0xC1 => Some('\u{1F55A}'),
        0xC2 => Some('\u{1F55B}'),
        0xC3 => Some('\u{2BB0}'),
        0xC4 => Some('\u{2BB1}'),
        0xC5 => Some('\u{2BB2}'),
        0xC6 => Some('\u{2BB3}'),
        0xC7 => Some('\u{2BB4}'),
        0xC8 => Some('\u{2BB5}'),
        0xC9 => Some('\u{2BB6}'),
        0xCA => Some('\u{2BB7}'),
        0xCB => Some('\u{1F66A}'),
        0xCC => Some('\u{1F66B}'),
        0xCD => Some('\u{1F655}'),
        0xCE => Some('\u{1F654}'),
        0xCF => Some('\u{1F657}'),
        0xD0 => Some('\u{1F656}'),
        0xD1 => Some('\u{1F650}'),
        0xD2 => Some('\u{1F651}'),
        0xD3 => Some('\u{1F652}'),
        0xD4 => Some('\u{1F653}'),
        0xD5 => Some('\u{232B}'),
        0xD6 => Some('\u{2326}'),
        0xD7 => Some('\u{2B98}'),
        0xD8 => Some('\u{2B9A}'),
        0xD9 => Some('\u{2B99}'),
        0xDA => Some('\u{2B9B}'),
        0xDB => Some('\u{2B88}'),
        0xDC => Some('\u{2B8A}'),
        0xDD => Some('\u{2B89}'),
        0xDE => Some('\u{2B8B}'),
        0xDF => Some('\u{1F868}'),
        0xE0 => Some('\u{1F86A}'),
        0xE1 => Some('\u{1F869}'),
        0xE2 => Some('\u{1F86B}'),
        0xE3 => Some('\u{1F86C}'),
        0xE4 => Some('\u{1F86D}'),
        0xE5 => Some('\u{1F86F}'),
        0xE6 => Some('\u{1F86E}'),
        0xE7 => Some('\u{1F878}'),
        0xE8 => Some('\u{1F87A}'),
        0xE9 => Some('\u{1F879}'),
        0xEA => Some('\u{1F87B}'),
        0xEB => Some('\u{1F87C}'),
        0xEC => Some('\u{1F87D}'),
        0xED => Some('\u{1F87F}'),
        0xEE => Some('\u{1F87E}'),
        0xEF => Some('\u{21E6}'),
        0xF0 => Some('\u{21E8}'),
        0xF1 => Some('\u{21E7}'),
        0xF2 => Some('\u{21E9}'),
        0xF3 => Some('\u{2B04}'),
        0xF4 => Some('\u{21F3}'),
        0xF5 => Some('\u{2B00}'),
        0xF6 => Some('\u{2B01}'),
        0xF7 => Some('\u{2B03}'),
        0xF8 => Some('\u{2B02}'),
        0xF9 => Some('\u{1F8AC}'),
        0xFA => Some('\u{1F8AD}'),
        0xFB => Some('\u{1F5F6}'),
        0xFC => Some('\u{2714}'),
        _ => None,
    }
}

/// Looks `cp` up in the Wingdings table.
pub fn wingdings_char(cp: u8) -> (r: Option<char>)
    ensures
        r == spec_wingdings_char(cp),
{
    match cp {
        0x21 => Some('\u{1F589}'),
        0x22 => Some('\u{2702}'),
        0x23 => Some('\u{2701}'),
        0x24 => Some('\u{1F453}'),
        0x25 => Some('\u{1F56D}'),
        0x26 => Some('\u{1F56E}'),
        0x27 => Some('\u{1F56F}'),
        0x28 => Some('\u{1F57F}'),
        0x29 => Some('\u{2706}'),
        0x2A => Some('\u{1F582}'),
        0x2B => Some('\u{1F583}'),
        0x2C => Some('\u{1F4EA}'),
        0x2D => Some('\u{1F4EB}'),
        0x2E => Some('\u{1F4EC}'),
        0x2F => Some('\u{1F4ED}'),
        0x30 => Some('\u{1F4C1}'),
        0x31 => Some('\u{1F4C2}'),
        0x32 => Some('\u{1F4C4}'),
        0x33 => Some('\u{1F5CF}'),
        0x34 => Some('\u{1F5D0}'),
        0x35 => Some('\u{1F5C4}'),
        0x36 => Some('\u{231B}'),
        0x37 => Some('\u{1F5AE}'),
        0x38 => Some('\u{1F5B0}'),
        0x39 => Some('\u{1F5B2}'),
        0x3A => Some('\u{1F5B3}'),
        0x3B => Some('\u{1F5B4}'),
        0x3C => Some('\u{1F5AB}'),
        0x3D => Some('\u{1F5AC}'),
        0x3E => Some('\u{2707}'),
        0x3F => Some('\u{270D}'),
        0x40 => Some('\u{1F58E}'),
        0x41 => Some('\u{270C}'),
        0x42 => Some('\u{1F44C}'),
        0x43 => Some('\u{1F44D}'),
        0x44 => Some('\u{1F44E}'),
        0x45 => Some('\u{261C}'),
        0x46 => Some('\u{261E}'),
        0x47 => Some('\u{261D}'),
        0x48 => Some('\u{261F}'),
        0x49 => Some('\u{1F590}'),
        0x4A => Some('\u{263A}'),
        0x4B => Some('\u{1F610}'),
        0x4C => Some('\u{2639}'),
        0x4D => Some('\u{1F4A3}'),
        0x4E => Some('\u{2620}'),
        0x4F => Some('\u{1F3F3}'),
        0x50 => Some('\u{1F3F1}'),
        0x51 => Some('\u{2708}'),
        0x52 => Some('\u{263C}'),
        0x53 => Some('\u{1F4A7}'),
        0x54 => Some('\u{2744}'),
        0x55 => Some('\u{1F546}'),
        0x56 => Some('\u{271E}'),
        0x57 => Some('\u{1F548}'),
        0x58 => Some('\u{2720}'),
        0x59 => Some('\u{2721}'),
        0x5A => Some('\u{262A}'),
        0x5B => Some('\u{262F}'),
        0x5C => Some('\u{0950}'),
        0x5D => Some('\u{2638}'),
        0x5E => Some('\u{2648}'),
        0x5F => Some('\u{2649}'),
        0x60 => Some('\u{264A}'),
        0x61 => Some('\u{264B}'),
        0x62 => Some('\u{264C}'),
        0x63 => Some('\u{264D}'),
        0x64 => Some('\u{264E}'),
        0x65 => Some('\u{264F}'),
        0x66 => Some('\u{2650}'),
        0x67 => Some('\u{2651}'),
        0x68 => Some('\u{2652}'),
        0x69 => Some('\u{2653}'),
        0x6A => Some('\u{1F670}'),
        0x6B => Some('\u{1F675}'),
        0x6C => Some('\u{25CF}'),
        0x6D => Some('\u{1F53E}'),
        0x6E => Some('\u{25A0}'),
        0x6F => Some('\u{25A1}'),
        0x70 => Some('\u{1F790}'),
        0x71 => Some('\u{2751}'),
        0x72 => Some('\u{2752}'),
        0x73 => Some('\u{2B27}'),
        0x74 => Some('\u{29EB}'),
        0x75 => Some('\u{25C6}'),
        0x76 => Some('\u{2756}'),
        0x77 => Some('\u{2B25}'),
        0x78 => Some('\u{2327}'),
        0x79 => Some('\u{2BB9}'),
        0x7A => Some('\u{2318}'),
        0x7B => Some('\u{1F3F5}'),
        0x7C => Some('\u{1F3F6}'),
        0x7D => Some('\u{1F676}'),
        0x7E => Some('\u{1F677}'),
        0x80 => Some('\u{24EA}'),
        0x81 => Some('\u{2460}'),
        0x82 => Some('\u{2461}'),
        0x83 => Some('\u{2462}'),
        0x84 => Some('\u{2463}'),
        0x85 => Some('\u{2464}'),
        0x86 => Some('\u{2465}'),
        0x87 => Some('\u{2466}'),
        0x88 => Some('\u{2467}'),
        0x89 => Some('\u{2468}'),
        0x8A => Some('\u{2469}'),
        0x8B => Some('\u{24FF}'),
        0x8C => Some('\u{2776}'),
        0x8D => Some('\u{2777}'),
        0x8E => Some('\u{2778}'),
        0x8F => Some('\u{2779}'),
        0x90 => Some('\u{277A}'),
        0x91 => Some('\u{277B}'),
        0x92 => Some('\u{277C}'),
        0x93 => Some('\u{277D}'),
        0x94 => Some('\u{277E}'),
        0x95 => Some('\u{277F}'),
        0x96 => Some('\u{1F662}'),
        0x97 => Some('\u{1F660}'),
        0x98 => Some('\u{1F661}'),
        0x99 => Some('\u{1F663}'),
        0x9A => Some('\u{1F65E}'),
        0x9B => Some('\u{1F65C}'),
        0x9C => Some('\u{1F65D}'),
        0x9D => Some('\u{1F65F}'),
        0x9E => Some('\u{00B7}'),
        0x9F => Some('\u{2022}'),
        0xA1 => Some('\u{26AA}'),
        0xA2 => Some('\u{1F786}'),
        0xA3 => Some('\u{1F788}'),
        0xA4 => Some('\u{25C9}'),
        0xA5 => Some('\u{25CE}'),
        0xA6 => Some('\u{1F53F}'),
        0xA7 => Some('\u{25AA}'),
        0xA8 => Some('\u{25FB}'),
        0xA9 => Some('\u{1F7C2}'),
        0xAA => Some('\u{2726}'),
        0xAB => Some('\u{2605}'),
        0xAC => Some('\u{2736}'),
        0xAD => Some('\u{2734}'),
        0xAE => Some('\u{2739}'),
        0xAF => Some('\u{2735}'),
        0xB0 => Some('\u{2BD0}'),
        0xB1 => Some('\u{2316}'),
        0xB2 => Some('\u{27E1}'),
        0xB3 => Some('\u{2311}'),
        0xB4 => Some('\u{2BD1}'),
        0xB5 => Some('\u{272A}'),
        0xB6 => Some('\u{2730}'),
        0xB7 => Some('\u{1F550}'),
        0xB8 => Some('\u{1F551}'),
        0xB9 => Some('\u{1F552}'),
        0xBA => Some('\u{1F553}'),
        0xBB => Some('\u{1F554}'),
        0xBC => Some('\u{1F555}'),
        0xBD => Some('\u{1F556}'),
        0xBE => Some('\u{1F557}'),
        0xBF => Some('\u{1F558}'),
        0xC0 => Some('\u{1F559}'),
        0xC1 => Some('\u{1F55A}'),
        0xC2 => Some('\u{1F55B}'),
        0xC3 => Some('\u{2BB0}'),
        0xC4 => Some('\u{2BB1}'),
        0xC5 => Some('\u{2BB2}'),
        0xC6 => Some('\u{2BB3}'),
        0xC7 => Some('\u{2BB4}'),
        0xC8 => Some('\u{2BB5}'),
        0xC9 => Some('\u{2BB6}'),
        0xCA => Some('\u{2BB7}'),
        0xCB => Some('\u{1F66A}'),
        0xCC => Some('\u{1F66B}'),
        0xCD => Some('\u{1F655}'),
        0xCE => Some('\u{1F654}'),
        0xCF => Some('\u{1F657}'),
        0xD0 => Some('\u{1F656}'),
        0xD1 => Some('\u{1F650}'),
        0xD2 => Some('\u{1F651}'),
        0xD3 => Some('\u{1F652}'),
        0xD4 => Some('\u{1F653}'),
        0xD5 => Some('\u{232B}'),
        0xD6 => Some('\u{2326}'),
        0xD7 => Some('\u{2B98}'),
        0xD8 => Some('\u{2B9A}'),
        0xD9 => Some('\u{2B99}'),
        0xDA => Some('\u{2B9B}'),
        0xDB => Some('\u{2B88}'),
        0xDC => Some('\u{2B8A}'),
        0xDD => Some('\u{2B89}'),
        0xDE => Some('\u{2B8B}'),
        0xDF => Some('\u{1F868}'),
        0xE0 => Some('\u{1F86A}'),
        0xE1 => Some('\u{1F869}'),
        0xE2 => Some('\u{1F86B}'),
        0xE3 => Some('\u{1F86C}'),
        0xE4 => Some('\u{1F86D}'),
        0xE5 => Some('\u{1F86F}'),
        0xE6 => Some('\u{1F86E}'),
        0xE7 => Some('\u{1F878}'),
        0xE8 => Some('\u{1F87A}'),
        0xE9 => Some('\u{1F879}'),
        0xEA => Some('\u{1F87B}'),
        0xEB => Some('\u{1F87C}'),
        0xEC => Some('\u{1F87D}'),
        0xED => Some('\u{1F87F}'),
        0xEE => Some('\u{1F87E}'),
        0xEF => Some('\u{21E6}'),
        0xF0 => Some('\u{21E8}'),
        0xF1 => Some('\u{21E7}'),
        0xF2 => Some('\u{21E9}'),
        0xF3 => Some('\u{2B04}'),
        0xF4 => Some('\u{21F3}'),
        0xF5 => Some('\u{2B00}'),
        0xF6 => Some('\u{2B01}'),
        0xF7 => Some('\u{2B03}'),
        0xF8 => Some('\u{2B02}'),
        0xF9 => Some('\u{1F8AC}'),
        0xFA => Some('\u{1F8AD}'),
        0xFB => Some('\u{1F5F6}'),
        0xFC => Some('\u{2714}'),
        _ => None,
    }
}

/// The Wingdings 2 table.
pub open spec fn spec_wingdings_2_char(cp: u8) -> Option<char> {
    match cp {
        0x21 => Some('\u{270a}'),
        0x22 => Some('\u{270b}'),
        0x23 => Some('\u{270c}'),
        0x24 => Some('\u{270d}'),
        0x25 => Some('\u{2704}'),
        0x26 => Some('\u{2700}'),
        0x27 => Some('\u{1f71e}'),
        0x28 => Some('\u{1f71d}'),
        0x29 => Some('\u{1f5c5}'),
        0x2A => Some('\u{1f5c6}'),
        0x2B => Some('\u{1f5c7}'),
        0x2C => Some('\u{1f5c8}'),
        0x2D => Some('\u{1f5c9}'),
        0x2E => Some('\u{1f5ca}'),
        0x2F => Some('\u{1f5cb}'),
        0x30 => Some('\u{1f5cc}'),
        0x31 => Some('\u{1f5cd}'),
        0x32 => Some('\u{1f4cb}'),
        0x33 => Some('\u{1f5d1}'),
        0x34 => Some('\u{1f5d4}'),
        0x35 => Some('\u{1f5d5}'),
        0x36 => Some('\u{1f5d6}'),
        0x37 => Some('\u{1f5d7}'),
        0x38 => Some('\u{1f5d8}'),
        0x39 => Some('\u{1f5ad}'),
        0x3A => Some('\u{1f5af}'),
        0x3B => Some('\u{1f5b1}'),
        0x3C => Some('\u{1f592}'),
        0x3D => Some('\u{1f593}'),
        0x3E => Some('\u{1f598}'),
        0x3F => Some('\u{1f599}'),
        0x40 => Some('\u{1f59a}'),
        0x41 => Some('\u{1f59b}'),
        0x42 => Some('\u{1f448}'),
        0x43 => Some('\u{1f449}'),
        0x44 => Some('\u{1f59c}'),
        0x45 => Some('\u{1f59d}'),
        0x46 => Some('\u{1f59e}'),
        0x47 => Some('\u{1f59f}'),
        0x48 => Some('\u{1f5a0}'),
        0x49 => Some('\u{1f5a1}'),
        0x4A => Some('\u{1f446}'),
        0x4B => Some('\u{1f447}'),
        0x4C => Some('\u{1f5a2}'),
        0x4D => Some('\u{1f5a3}'),
        0x4E => Some('\u{1f591}'),
        0x4F => Some('\u{1f5b4}'),
        0x50 => Some('\u{2713}'),
        0x51 => Some('\u{1f5b5}'),
        0x52 => Some('\u{2611}'),
        0x53 => Some('\u{2612}'),
        0x54 => Some('\u{2612}'),
        0x55 => Some('\u{2bbe}'),
        0x56 => Some('\u{2bbf}'),
        0x57 => Some('\u{2a38}'),
        0x58 => Some('\u{2a38}'),
        0x59 => Some('\u{1f669}'),
        0x5A => Some('\u{1f674}'),
        0x5B => Some('\u{1f672}'),
        0x5C => Some('\u{1f673}'),
        0x5D => Some('\u{203d}'),
        0x5E => Some('\u{1f679}'),
        0x5F => Some('\u{1f67a}'),
        0x60 => Some('\u{1f67b}'),
        0x61 => Some('\u{1f666}'),
        0x62 => Some('\u{1f664}'),
        0x63 => Some('\u{1f665}'),
        0x64 => Some('\u{1f667}'),
        0x65 => Some('\u{1f67a}'),
        0x66 => Some('\u{1f668}'),
        0x67 => Some('\u{1f669}'),
        0x68 => Some('\u{1f67b}'),
        0x69 => Some('\u{24ff}'),
        0x6A => Some('\u{2460}'),
        0x6B => Some('\u{2461}'),
        0x6C => Some('\u{2462}'),
        0x6D => Some('\u{2463}'),
        0x6E => Some('\u{2464}'),
        0x6F => Some('\u{2465}'),
        0x70 => Some('\u{2466}'),
        0x71 => Some('\u{2467}'),
        0x72 => Some('\u{2468}'),
        0x73 => Some('\u{2469}'),
        0x74 => Some('\u{24ff}'),
        0x75 => Some('\u{2776}'),
        0x76 => Some('\u{2777}'),
        0x77 => Some('\u{2778}'),
        0x78 => Some('\u{2779}'),
        0x79 => Some('\u{277a}'),
        0x7A => Some('\u{277b}'),
        0x7B => Some('\u{277c}'),
        0x7C => Some('\u{277d}'),
        0x7D => Some('\u{277e}'),
        0x7E => Some('\u{277f}'),
        0x80 => Some('\u{2609}'),
        0x81 => Some('\u{1f315}'),
        0x82 => Some('\u{263d}'),
        0x83 => Some('\u{263e}'),
        0x84 => Some('\u{2e3f}'),
        0x85 => Some('\u{271d}'),
        0x86 => Some('\u{1f547}'),
        0x87 => Some('\u{1f55c}'),
        0x88 => Some('\u{1f55d}'),
        0x89 => Some('\u{1f55e}'),
        0x8A => Some('\u{1f55f}'),
        0x8B => Some('\u{1f560}'),
        0x8C => Some('\u{1f561}'),
        0x8D => Some('\u{1f562}'),
        0x8E => Some('\u{1f563}'),
        0x8F => Some('\u{1f564}'),
        0x90 => Some('\u{1f565}'),
        0x91 => Some('\u{1f566}'),
        0x92 => Some('\u{1f567}'),
        0x93 => Some('\u{1f668}'),
        0x94 => Some('\u{1f669}'),
        0x95 => Some('\u{2022}'),
        0x96 => Some('\u{25cf}'),
        0x97 => Some('\u{26ab}'),
        0x98 => Some('\u{2b24}'),
        0x99 => Some('\u{1f785}'),
        0x9A => Some('\u{1f786}'),
        0x9B => Some('\u{1f787}'),
        0x9C => Some('\u{1f788}'),
        0x9D => Some('\u{1f78a}'),
        0x9E => Some('\u{29bf}'),
        0x9F => Some('\u{25fe}'),
        0xA1 => Some('\u{25fc}'),
        0xA2 => Some('\u{2b1b}'),
        0xA3 => Some('\u{2b1c}'),
        0xA4 => Some('\u{1f791}'),
        0xA5 => Some('\u{1f792}'),
        0xA6 => Some('\u{1f793}'),
        0xA7 => Some('\u{1f794}'),
        0xA8 => Some('\u{25a3}'),
        0xA9 => Some('\u{1f795}'),
        0xAA => Some('\u{1f796}'),
        0xAB => Some('\u{1f797}'),
        0xAC => Some('\u{2b29}'),
        0xAD => Some('\u{25ad}'),
        0xAE => Some('\u{25c6}'),
        0xAF => Some('\u{25c7}'),
        0xB0 => Some('\u{1f79a}'),
        0xB1 => Some('\u{25c8}'),
        0xB2 => Some('\u{1f79b}'),
        0xB3 => Some('\u{1f79c}'),
        0xB4 => Some('\u{1f79d}'),
        0xB5 => Some('\u{2b2a}'),
        0xB6 => Some('\u{25a7}'),
        0xB7 => Some('\u{2b2b}'),
        0xB8 => Some('\u{25ca}'),
        0xB9 => Some('\u{1f7a0}'),
        0xBA => Some('\u{2596}'),
        0xBB => Some('\u{2597}'),
        0xBC => Some('\u{2bca}'),
        0xBD => Some('\u{2bcb}'),
        0xBE => Some('\u{25fc}'),
        0xBF => Some('\u{25ad}'),
        0xC0 => Some('\u{2b1f}'),
        0xC1 => Some('\u{2bc2}'),
        0xC2 => Some('\u{2b23}'),
        0xC3 => Some('\u{2b22}'),
        0xC4 => Some('\u{2bc3}'),
        0xC5 => Some('\u{2bc4}'),
        0xC6 => Some('\u{1f7a1}'),
        0xC7 => Some('\u{1f7a2}'),
        0xC8 => Some('\u{1f7a3}'),
        0xC9 => Some('\u{1f7a4}'),
        0xCA => Some('\u{1f7a5}'),
        0xCB => Some('\u{1f7a6}'),
        0xCC => Some('\u{1f7a7}'),
        0xCD => Some('\u{1f7a8}'),
        0xCE => Some('\u{1f7a9}'),
        0xCF => Some('\u{1f7aa}'),
        0xD0 => Some('\u{1f7ab}'),
        0xD1 => Some('\u{1f7ac}'),
        0xD2 => Some('\u{1f7ad}'),
        0xD3 => Some('\u{1f7ae}'),
        0xD4 => Some('\u{1f7af}'),
        0xD5 => Some('\u{1f7b0}'),
        0xD6 => Some('\u{1f7b1}'),
        0xD7 => Some('\u{1f7b2}'),
        0xD8 => Some('\u{1f7b3}'),
        0xD9 => Some('\u{1f7b4}'),
        0xDA => Some('\u{1f7b5}'),
        0xDB => Some('\u{1f7b6}'),
        0xDC => Some('\u{1f7b7}'),
        0xDD => Some('\u{1f7b8}'),
        0xDE => Some('\u{1f7b9}'),
        0xDF => Some('\u{1f7ba}'),
        0xE0 => Some('\u{1f7bb}'),
        0xE1 => Some('\u{1f7bc}'),
        0xE2 => Some('\u{1f7bd}'),
        0xE3 => Some('\u{1f7be}'),
        0xE4 => Some('\u{1f7bf}'),
        0xE5 => Some('\u{1f7c0}'),
        0xE6 => Some('\u{1f7c2}'),
        0xE7 => Some('\u{1f7c4}'),
        0xE8 => Some('\u{2726}'),
        0xE9 => Some('\u{1f7c9}'),
        0xEA => Some('\u{2605}'),
        0xEB => Some('\u{2736}'),
        0xEC => Some('\u{1f7cb}'),
        0xED => Some('\u{2737}'),
        0xEE => Some('\u{1f7cf}'),
        0xEF => Some('\u{1f7d2}'),
        0xF0 => Some('\u{2739}'),
        0xF1 => Some('\u{1f7c3}'),
        0xF2 => Some('\u{1f7c7}'),
        0xF3 => Some('\u{272f}'),
        0xF4 => Some('\u{1f7cd}'),
        0xF5 => Some('\u{1f7d4}'),
        0xF6 => Some('\u{2bcc}'),
        0xF7 => Some('\u{2bcd}'),
        0xF8 => Some('\u{203b}'),
        0xF9 => Some('\u{2042}'),
        _ => None,
    }
}

/// Looks `cp` up in the Wingdings 2 table.
pub fn wingdings_2_char(cp: u8) -> (r: Option<char>)
    ensures
        r == spec_wingdings_2_char(cp),
{
    match cp {
        0x21 => Some('\u{270a}'),
        0x22 => Some('\u{270b}'),
        0x23 => Some('\u{270c}'),
        0x24 => Some('\u{270d}'),
        0x25 => Some('\u{2704}'),
        0x26 => Some('\u{2700}'),
        0x27 => Some('\u{1f71e}'),
        0x28 => Some('\u{1f71d}'),
        0x29 => Some('\u{1f5c5}'),
        0x2A => Some('\u{1f5c6}'),
        0x2B => Some('\u{1f5c7}'),
        0x2C => Some('\u{1f5c8}'),
        0x2D => Some('\u{1f5c9}'),
        0x2E => Some('\u{1f5ca}'),
        0x2F => Some('\u{1f5cb}'),
        0x30 => Some('\u{1f5cc}'),
        0x31 => Some('\u{1f5cd}'),
        0x32 => Some('\u{1f4cb}'),
        0x33 => Some('\u{1f5d1}'),
        0x34 => Some('\u{1f5d4}'),
        0x35 => Some('\u{1f5d5}'),
        0x36 => Some('\u{1f5d6}'),
        0x37 => Some('\u{1f5d7}'),
        0x38 => Some('\u{1f5d8}'),
        0x39 => Some('\u{1f5ad}'),
        0x3A => Some('\u{1f5af}'),
        0x3B => Some('\u{1f5b1}'),
        0x3C => Some('\u{1f592}'),
        0x3D => Some('\u{1f593}'),
        0x3E => Some('\u{1f598}'),
        0x3F => Some('\u{1f599}'),
        0x40 => Some('\u{1f59a}'),
        0x41 => Some('\u{1f59b}'),
        0x42 => Some('\u{1f448}'),
        0x43 => Some('\u{1f449}'),
        0x44 => Some('\u{1f59c}'),
        0x45 => Some('\u{1f59d}'),
        0x46 => Some('\u{1f59e}'),
        0x47 => Some('\u{1f59f}'),
        0x48 => Some('\u{1f5a0}'),
        0x49 => Some('\u{1f5a1}'),
        0x4A => Some('\u{1f446}'),
        0x4B => Some('\u{1f447}'),
        0x4C => Some('\u{1f5a2}'),
        0x4D => Some('\u{1f5a3}'),
        0x4E => Some('\u{1f591}'),
        0x4F => Some('\u{1f5b4}'),
        0x50 => Some('\u{2713}'),
        0x51 => Some('\u{1f5b5}'),
        0x52 => Some('\u{2611}'),
        0x53 => Some('\u{2612}'),
        0x54 => Some('\u{2612}'),
        0x55 => Some('\u{2bbe}'),
        0x56 => Some('\u{2bbf}'),
        0x57 => Some('\u{2a38}'),
        0x58 => Some('\u{2a38}'),
        0x59 => Some('\u{1f669}'),
        0x5A => Some('\u{1f674}'),
        0x5B => Some('\u{1f672}'),
        0x5C => Some('\u{1f673}'),
        0x5D => Some('\u{203d}'),
        0x5E => Some('\u{1f679}'),
        0x5F => Some('\u{1f67a}'),
        0x60 => Some('\u{1f67b}'),
        0x61 => Some('\u{1f666}'),
        0x62 => Some('\u{1f664}'),
        0x63 => Some('\u{1f665}'),
        0x64 => Some('\u{1f667}'),
        0x65 => Some('\u{1f67a}'),
        0x66 => Some('\u{1f668}'),
        0x67 => Some('\u{1f669}'),
        0x68 => Some('\u{1f67b}'),
        0x69 => Some('\u{24ff}'),
        0x6A => Some('\u{2460}'),
        0x6B => Some('\u{2461}'),
        0x6C => Some('\u{2462}'),
        0x6D => Some('\u{2463}'),
        0x6E => Some('\u{2464}'),
        0x6F => Some('\u{2465}'),
        0x70 => Some('\u{2466}'),
        0x71 => Some('\u{2467}'),
        0x72 => Some('\u{2468}'),
        0x73 => Some('\u{2469}'),
        0x74 => Some('\u{24ff}'),
        0x75 => Some('\u{2776}'),
        0x76 => Some('\u{2777}'),
        0x77 => Some('\u{2778}'),
        0x78 => Some('\u{2779}'),
        0x79 => Some('\u{277a}'),
        0x7A => Some('\u{277b}'),
        0x7B => Some('\u{277c}'),
        0x7C => Some('\u{277d}'),
        0x7D => Some('\u{277e}'),
        0x7E => Some('\u{277f}'),
        0x80 => Some('\u{2609}'),
        0x81 => Some('\u{1f315}'),
        0x82 => Some('\u{263d}'),
        0x83 => Some('\u{263e}'),
        0x84 => Some('\u{2e3f}'),
        0x85 => Some('\u{271d}'),
        0x86 => Some('\u{1f547}'),
        0x87 => Some('\u{1f55c}'),
        0x88 => Some('\u{1f55d}'),
        0x89 => Some('\u{1f55e}'),
        0x8A => Some('\u{1f55f}'),
        0x8B => Some('\u{1f560}'),
        0x8C => Some('\u{1f561}'),
        0x8D => Some('\u{1f562}'),
        0x8E => Some('\u{1f563}'),
        0x8F => Some('\u{1f564}'),
        0x90 => Some('\u{1f565}'),
        0x91 => Some('\u{1f566}'),
        0x92 => Some('\u{1f567}'),
        0x93 => Some('\u{1f668}'),
        0x94 => Some('\u{1f669}'),
        0x95 => Some('\u{2022}'),
        0x96 => Some('\u{25cf}'),
        0x97 => Some('\u{26ab}'),
        0x98 => Some('\u{2b24}'),
        0x99 => Some('\u{1f785}'),
        0x9A => Some('\u{1f786}'),
        0x9B => Some('\u{1f787}'),
        0x9C => Some('\u{1f788}'),
        0x9D => Some('\u{1f78a}'),
        0x9E => Some('\u{29bf}'),
        0x9F => Some('\u{25fe}'),
        0xA1 => Some('\u{25fc}'),
        0xA2 => Some('\u{2b1b}'),
        0xA3 => Some('\u{2b1c}'),
        0xA4 => Some('\u{1f791}'),
        0xA5 => Some('\u{1f792}'),
        0xA6 => Some('\u{1f793}'),
        0xA7 => Some('\u{1f794}'),
        0xA8 => Some('\u{25a3}'),
        0xA9 => Some('\u{1f795}'),
        0xAA => Some('\u{1f796}'),
        0xAB => Some('\u{1f797}'),
        0xAC => Some('\u{2b29}'),
        0xAD => Some('\u{25ad}'),
        0xAE => Some('\u{25c6}'),
        0xAF => Some('\u{25c7}'),
        0xB0 => Some('\u{1f79a}'),
        0xB1 => Some('\u{25c8}'),
        0xB2 => Some('\u{1f79b}'),
        0xB3 => Some('\u{1f79c}'),
        0xB4 => Some('\u{1f79d}'),
        0xB5 => Some('\u{2b2a}'),
        0xB6 => Some('\u{25a7}'),
        0xB7 => Some('\u{2b2b}'),
        0xB8 => Some('\u{25ca}'),
        0xB9 => Some('\u{1f7a0}'),
        0xBA => Some('\u{2596}'),
        0xBB => Some('\u{2597}'),
        0xBC => Some('\u{2bca}'),
        0xBD => Some('\u{2bcb}'),
        0xBE => Some('\u{25fc}'),
        0xBF => Some('\u{25ad}'),
        0xC0 => Some('\u{2b1f}'),
        0xC1 => Some('\u{2bc2}'),
        0xC2 => Some('\u{2b23}'),
        0xC3 => Some('\u{2b22}'),
        0xC4 => Some('\u{2bc3}'),
        0xC5 => Some('\u{2bc4}'),
        0xC6 => Some('\u{1f7a1}'),
        0xC7 => Some('\u{1f7a2}'),
        0xC8 => Some('\u{1f7a3}'),
        0xC9 => Some('\u{1f7a4}'),
        0xCA => Some('\u{1f7a5}'),
        0xCB => Some('\u{1f7a6}'),
        0xCC => Some('\u{1f7a7}'),
        0xCD => Some('\u{1f7a8}'),
        0xCE => Some('\u{1f7a9}'),
        0xCF => Some('\u{1f7aa}'),
        0xD0 => Some('\u{1f7ab}'),
        0xD1 => Some('\u{1f7ac}'),
        0xD2 => Some('\u{1f7ad}'),
        0xD3 => Some('\u{1f7ae}'),
        0xD4 => Some('\u{1f7af}'),
        0xD5 => Some('\u{1f7b0}'),
        0xD6 => Some('\u{1f7b1}'),
        0xD7 => Some('\u{1f7b2}'),
        0xD8 => Some('\u{1f7b3}'),
        0xD9 => Some('\u{1f7b4}'),
        0xDA => Some('\u{1f7b5}'),
        0xDB => Some('\u{1f7b6}'),
        0xDC => Some('\u{1f7b7}'),
        0xDD => Some('\u{1f7b8}'),
        0xDE => Some('\u{1f7b9}'),
        0xDF => Some('\u{1f7ba}'),
        0xE0 => Some('\u{1f7bb}'),
        0xE1 => Some('\u{1f7bc}'),
        0xE2 => Some('\u{1f7bd}'),
        0xE3 => Some('\u{1f7be}'),
        0xE4 => Some('\u{1f7bf}'),
        0xE5 => Some('\u{1f7c0}'),
        0xE6 => Some('\u{1f7c2}'),
        0xE7 => Some('\u{1f7c4}'),
        0xE8 => Some('\u{2726}'),
        0xE9 => Some('\u{1f7c9}'),
        0xEA => Some('\u{2605}'),
        0xEB => Some('\u{2736}'),
        0xEC => Some('\u{1f7cb}'),
        0xED => Some('\u{2737}'),
        0xEE => Some('\u{1f7cf}'),
        0xEF => Some('\u{1f7d2}'),
        0xF0 => Some('\u{2739}'),
        0xF1 => Some('\u{1f7c3}'),
        0xF2 => Some('\u{1f7c7}'),
        0xF3 => Some('\u{272f}'),
        0xF4 => Some('\u{1f7cd}'),
        0xF5 => Some('\u{1f7d4}'),
        0xF6 => Some('\u{2bcc}'),
        0xF7 => Some('\u{2bcd}'),
        0xF8 => Some('\u{203b}'),
        0xF9 => Some('\u{2042}'),
        _ => None,
    }
}

/// The Webdings table.
pub open spec fn spec_webdings_char(cp: u8) -> Option<char> {
    match cp {
        0x21 => Some('\u{1F577}'),
        0x22 => Some('\u{1F578}'),
        0x23 => Some('\u{1F572}'),
        0x24 => Some('\u{1F576}'),
        0x25 => Some('\u{1F3C6}'),
        0x26 => Some('\u{1F396}'),
        0x27 => Some('\u{1F587}'),
        0x28 => Some('\u{1F5E8}'),
        0x29 => Some('\u{1F5E9}'),
        0x2A => Some('\u{1F5F0}'),
        0x2B => Some('\u{1F5F1}'),
        0x2C => Some('\u{1F336}'),
        0x2D => Some('\u{1F397}'),
        0x2E => Some('\u{1F67E}'),
        0x2F => Some('\u{1F67C}'),
        0x30 => Some('\u{1F5D5}'),
        0x31 => Some('\u{1F5D6}'),
        0x32 => Some('\u{1F5D7}'),
        0x33 => Some('\u{23F4}'),
        0x34 => Some('\u{23F5}'),
        0x35 => Some('\u{23F6}'),
        0x36 => Some('\u{23F7}'),
        0x37 => Some('\u{23EA}'),
        0x38 => Some('\u{23E9}'),
        0x39 => Some('\u{23EE}'),
        0x3A => Some('\u{23ED}'),
        0x3B => Some('\u{23F8}'),
        0x3C => Some('\u{23F9}'),
        0x3D => Some('\u{23FA}'),
        0x3E => Some('\u{1F5DA}'),
        0x3F => Some('\u{1F5F3}'),
        0x40 => Some('\u{1F6E0}'),
        0x41 => Some('\u{1F3D7}'),
        0x42 => Some('\u{1F3D8}'),
        0x43 => Some('\u{1F3D9}'),
        0x44 => Some('\u{1F3DA}'),
        0x45 => Some('\u{1F3DC}'),
        0x46 => Some('\u{1F3ED}'),
        0x47 => Some('\u{1F3DB}'),
        0x48 => Some('\u{1F3E0}'),
        0x49 => Some('\u{1F3D6}'),
        0x4A => Some('\u{1F3DD}'),
        0x4B => Some('\u{1F6E3}'),
        0x4C => Some('\u{1F50D}'),
        0x4D => Some('\u{1F3D4}'),
        0x4E => Some('\u{1F441}'),
        0x4F => Some('\u{1F442}'),
        0x50 => Some('\u{1F3DE}'),
        0x51 => Some('\u{1F3D5}'),
        0x52 => Some('\u{1F6E4}'),
        0x53 => Some('\u{1F3DF}'),
        0x54 => Some('\u{1F6F3}'),
        0x55 => Some('\u{1F56C}'),
        0x56 => Some('\u{1F56B}'),
        0x57 => Some('\u{1F568}'),
        0x58 => Some('\u{1F508}'),
        0x59 => Some('\u{1F394}'),
        0x5A => Some('\u{1F395}'),
        0x5B => Some('\u{1F5EC}'),
        0x5C => Some('\u{1F67D}'),
        0x5D => Some('\u{1F5ED}'),
        0x5E => Some('\u{1F5EA}'),
        0x5F => Some('\u{1F5EB}'),
        0x60 => Some('\u{2B94}'),
        0x61 => Some('\u{2714}'),
        0x62 => Some('\u{1F6B2}'),
        0x63 => Some('\u{25A1}'),
        0x64 => Some('\u{1F6E1}'),
        0x65 => Some('\u{1F4E6}'),
        0x66 => Some('\u{1F6F1}'),
        0x67 => Some('\u{25A0}'),
        0x68 => Some('\u{1F691}'),
        0x69 => Some('\u{1F6C8}'),
        0x6A => Some('\u{1F6E9}'),
        0x6B => Some('\u{1F6F0}'),
        0x6C => Some('\u{1F7C8}'),
        0x6D => Some('\u{1F574}'),
        0x6E => Some('\u{26AB}'),
        0x6F => Some('\u{1F6E5}'),
        0x70 => Some('\u{1F694}'),
        0x71 => Some('\u{1F5D8}'),
        0x72 => Some('\u{1F5D9}'),
        0x73 => Some('\u{2753}'),
        0x74 => Some('\u{1F6F2}'),
        0x75 => Some('\u{1F687}'),
        0x76 => Some('\u{1F68D}'),
        0x77 => Some('\u{26F3}'),
        0x78 => Some('\u{1F6C7}'),
        0x79 => Some('\u{2296}'),
        0x7A => Some('\u{1F6AD}'),
        0x7B => Some('\u{1F5EE}'),
        0x7C => Some('\u{007C}'),
        0x7D => Some('\u{1F5EF}'),
        0x7E => Some('\u{1F5F2}'),
        0x80 => Some('\u{1F6B9}'),
        0x81 => Some('\u{1F6BA}'),
        0x82 => Some('\u{1F6C9}'),
        0x83 => Some('\u{1F6CA}'),
        0x84 => Some('\u{1F6BC}'),
        0x85 => Some('\u{1F47D}'),
        0x86 => Some('\u{1F3CB}'),
        0x87 => Some('\u{26F7}'),
        0x88 => Some('\u{1F3C2}'),
        0x89 => Some('\u{1F3CC}'),
        0x8A => Some('\u{1F3CA}'),
        0x8B => Some('\u{1F3C4}'),
        0x8C => Some('\u{1F3CD}'),
        0x8D => Some('\u{1F3CE}'),
        0x8E => Some('\u{1F698}'),
        0x8F => Some('\u{1F5E0}'),
        0x90 => Some('\u{1F6E2}'),
        0x91 => Some('\u{1F4B0}'),
        0x92 => Some('\u{1F3F7}'),
        0x93 => Some('\u{1F4B3}'),
        0x94 => Some('\u{1F46A}'),
        0x95 => Some('\u{1F5E1}'),
        0x96 => Some('\u{1F5E2}'),
        0x97 => Some('\u{1F5E3}'),
        0x98 => Some('\u{272F}'),
        0x99 => Some('\u{1F584}'),
        0x9A => Some('\u{1F585}'),
        0x9B => Some('\u{1F583}'),
        0x9C => Some('\u{1F586}'),
        0x9D => Some('\u{1F5B9}'),
        0x9E => Some('\u{1F5BA}'),
        0x9F => Some('\u{1F5BB}'),
        0xA1 => Some('\u{1F570}'),
        0xA2 => Some('\u{1F5BD}'),
        0xA3 => Some('\u{1F5BE}'),
        0xA4 => Some('\u{1F4CB}'),
        0xA5 => Some('\u{1F5D2}'),
        0xA6 => Some('\u{1F5D3}'),
        0xA7 => Some('\u{1F4D6}'),
        0xA8 => Some('\u{1F4DA}'),
        0xA9 => Some('\u{1F5DE}'),
        0xAA => Some('\u{1F5DF}'),
        0xAB => Some('\u{1F5C3}'),
        0xAC => Some('\u{1F5C2}'),
        0xAD => Some('\u{1F5BC}'),
        0xAE => Some('\u{1F3AD}'),
        0xAF => Some('\u{1F39C}'),
        0xB0 => Some('\u{1F398}'),
        0xB1 => Some('\u{1F399}'),
        0xB2 => Some('\u{1F3A7}'),
        0xB3 => Some('\u{1F4BF}'),
        0xB4 => Some('\u{1F39E}'),
        0xB5 => Some('\u{1F4F7}'),
        0xB6 => Some('\u{1F39F}'),
        0xB7 => Some('\u{1F3AC}'),
        0xB8 => Some('\u{1F4FD}'),
        0xB9 => Some('\u{1F4F9}'),
        0xBA => Some('\u{1F4FE}'),
        0xBB => Some('\u{1F4FB}'),
        0xBC => Some('\u{1F39A}'),
        0xBD => Some('\u{1F39B}'),
        0xBE => Some('\u{1F4FA}'),
        0xBF => Some('\u{1F4BB}'),
        0xC0 => Some('\u{1F5A5}'),
        0xC1 => Some('\u{1F5A6}'),
        0xC2 => Some('\u{1F5A7}'),
        0xC3 => Some('\u{1F579}'),
        0xC4 => Some('\u{1F3AE}'),
        0xC5 => Some('\u{1F57B}'),
        0xC6 => Some('\u{1F57C}'),
        0xC7 => Some('\u{1F4DF}'),
        0xC8 => Some('\u{1F581}'),
        0xC9 => Some('\u{1F580}'),
        0xCA => Some('\u{1F5A8}'),
        0xCB => Some('\u{1F5A9}'),
        0xCC => Some('\u{1F5BF}'),
        0xCD => Some('\u{1F5AA}'),
        0xCE => Some('\u{1F5DC}'),
        0xCF => Some('\u{1F512}'),
        0xD0 => Some('\u{1F513}'),
        0xD1 => Some('\u{1F5DD}'),
        0xD2 => Some('\u{1F4E5}'),
        0xD3 => Some('\u{1F4E4}'),
        0xD4 => Some('\u{1F573}'),
        0xD5 => Some('\u{1F323}'),
        0xD6 => Some('\u{1F324}'),
        0xD7 => Some('\u{1F325}'),
        0xD8 => Some('\u{1F326}'),
        0xD9 => Some('\u{2601}'),
        0xDA => Some('\u{1F327}'),
        0xDB => Some('\u{1F328}'),
        0xDC => Some('\u{1F329}'),
        0xDD => Some('\u{1F32A}'),
        0xDE => Some('\u{1F32C}'),
        0xDF => Some('\u{1F32B}'),
        0xE0 => Some('\u{1F31C}'),
        0xE1 => Some('\u{1F321}'),
        0xE2 => Some('\u{1F6CB}'),
        0xE3 => Some('\u{1F6CF}'),
        0xE4 => Some('\u{1F37D}'),
        0xE5 => Some('\u{1F378}'),
        0xE6 => Some('\u{1F6CE}'),
        0xE7 => Some('\u{1F6CD}'),
        0xE8 => Some('\u{24C5}'),
        0xE9 => Some('\u{267F}'),
        0xEA => Some('\u{1F6C6}'),
        0xEB => Some('\u{1F588}'),
        0xEC => Some('\u{1F393}'),
        0xED => Some('\u{1F5E4}'),
        0xEE => Some('\u{1F5E5}'),
        0xEF => Some('\u{1F5E6}'),
        0xF0 => Some('\u{1F5E7}'),
        0xF1 => Some('\u{1F6EA}'),
        0xF2 => Some('\u{1F43F}'),
        0xF3 => Some('\u{1F426}'),
        0xF4 => Some('\u{1F41F}'),
        0xF5 => Some('\u{1F415}'),
        0xF6 => Some('\u{1F408}'),
        0xF7 => Some('\u{1F66C}'),
        0xF8 => Some('\u{1F66E}'),
        0xF9 => Some('\u{1F66D}'),
        0xFA => Some('\u{1F66F}'),
        0xFB => Some('\u{1F5FA}'),
        0xFC => Some('\u{1F30D}'),
        0xFD => Some('\u{1F30F}'),
        0xFE => Some('\u{1F30E}'),
        0xFF => Some('\u{1F54A}'),
        _ => None,
    }
}

/// Looks `cp` up in the Webdings table.
pub fn webdings_char(cp: u8) -> (r: Option<char>)
    ensures
        r == spec_webdings_char(cp),
{
    match cp {
        0x21 => Some('\u{1F577}'),
        0x22 => Some('\u{1F578}'),
        0x23 => Some('\u{1F572}'),
        0x24 => Some('\u{1F576}'),
        0x25 => Some('\u{1F3C6}'),
        0x26 => Some('\u{1F396}'),
        0x27 => Some('\u{1F587}'),
        0x28 => Some('\u{1F5E8}'),
        0x29 => Some('\u{1F5E9}'),
        0x2A => Some('\u{1F5F0}'),
        0x2B => Some('\u{1F5F1}'),
        0x2C => Some('\u{1F336}'),
        0x2D => Some('\u{1F397}'),
        0x2E => Some('\u{1F67E}'),
        0x2F => Some('\u{1F67C}'),
        0x30 => Some('\u{1F5D5}'),
        0x31 => Some('\u{1F5D6}'),
        0x32 => Some('\u{1F5D7}'),
        0x33 => Some('\u{23F4}'),
        0x34 => Some('\u{23F5}'),
        0x35 => Some('\u{23F6}'),
        0x36 => Some('\u{23F7}'),
        0x37 => Some('\u{23EA}'),
        0x38 => Some('\u{23E9}'),
        0x39 => Some('\u{23EE}'),
        0x3A => Some('\u{23ED}'),
        0x3B => Some('\u{23F8}'),
        0x3C => Some('\u{23F9}'),
        0x3D => Some('\u{23FA}'),
        0x3E => Some('\u{1F5DA}'),
        0x3F => Some('\u{1F5F3}'),
        0x40 => Some('\u{1F6E0}'),
        0x41 => Some('\u{1F3D7}'),
        0x42 => Some('\u{1F3D8}'),
        0x43 => Some('\u{1F3D9}'),
        0x44 => Some('\u{1F3DA}'),
        0x45 => Some('\u{1F3DC}'),
        0x46 => Some('\u{1F3ED}'),
        0x47 => Some('\u{1F3DB}'),
        0x48 => Some('\u{1F3E0}'),
        0x49 => Some('\u{1F3D6}'),
        0x4A => Some('\u{1F3DD}'),
        0x4B => Some('\u{1F6E3}'),
        0x4C => Some('\u{1F50D}'),
        0x4D => Some('\u{1F3D4}'),
        0x4E => Some('\u{1F441}'),
        0x4F => Some('\u{1F442}'),
        0x50 => Some('\u{1F3DE}'),
        0x51 => Some('\u{1F3D5}'),
        0x52 => Some('\u{1F6E4}'),
        0x53 => Some('\u{1F3DF}'),
        0x54 => Some('\u{1F6F3}'),
        0x55 => Some('\u{1F56C}'),
        0x56 => Some('\u{1F56B}'),
        0x57 => Some('\u{1F568}'),
        0x58 => Some('\u{1F508}'),
        0x59 => Some('\u{1F394}'),
        0x5A => Some('\u{1F395}'),
        0x5B => Some('\u{1F5EC}'),
        0x5C => Some('\u{1F67D}'),
        0x5D => Some('\u{1F5ED}'),
        0x5E => Some('\u{1F5EA}'),
        0x5F => Some('\u{1F5EB}'),
        0x60 => Some('\u{2B94}'),
        0x61 => Some('\u{2714}'),
        0x62 => Some('\u{1F6B2}'),
        0x63 => Some('\u{25A1}'),
        0x64 => Some('\u{1F6E1}'),
        0x65 => Some('\u{1F4E6}'),
        0x66 => Some('\u{1F6F1}'),
        0x67 => Some('\u{25A0}'),
        0x68 => Some('\u{1F691}'),
        0x69 => Some('\u{1F6C8}'),
        0x6A => Some('\u{1F6E9}'),
        0x6B => Some('\u{1F6F0}'),
        0x6C => Some('\u{1F7C8}'),
        0x6D => Some('\u{1F574}'),
        0x6E => Some('\u{26AB}'),
        0x6F => Some('\u{1F6E5}'),
        0x70 => Some('\u{1F694}'),
        0x71 => Some('\u{1F5D8}'),
        0x72 => Some('\u{1F5D9}'),
        0x73 => Some('\u{2753}'),
        0x74 => Some('\u{1F6F2}'),
        0x75 => Some('\u{1F687}'),
        0x76 => Some('\u{1F68D}'),
        0x77 => Some('\u{26F3}'),
        0x78 => Some('\u{1F6C7}'),
        0x79 => Some('\u{2296}'),
        0x7A => Some('\u{1F6AD}'),
        0x7B => Some('\u{1F5EE}'),
        0x7C => Some('\u{007C}'),
        0x7D => Some('\u{1F5EF}'),
        0x7E => Some('\u{1F5F2}'),
        0x80 => Some('\u{1F6B9}'),
        0x81 => Some('\u{1F6BA}'),
        0x82 => Some('\u{1F6C9}'),
        0x83 => Some('\u{1F6CA}'),
        0x84 => Some('\u{1F6BC}'),
        0x85 => Some('\u{1F47D}'),
        0x86 => Some('\u{1F3CB}'),
        0x87 => Some('\u{26F7}'),
        0x88 => Some('\u{1F3C2}'),
        0x89 => Some('\u{1F3CC}'),
        0x8A => Some('\u{1F3CA}'),
        0x8B => Some('\u{1F3C4}'),
        0x8C => Some('\u{1F3CD}'),
        0x8D => Some('\u{1F3CE}'),
        0x8E => Some('\u{1F698}'),
        0x8F => Some('\u{1F5E0}'),
        0x90 => Some('\u{1F6E2}'),
        0x91 => Some('\u{1F4B0}'),
        0x92 => Some('\u{1F3F7}'),
        0x93 => Some('\u{1F4B3}'),
        0x94 => Some('\u{1F46A}'),
        0x95 => Some('\u{1F5E1}'),
        0x96 => Some('\u{1F5E2}'),
        0x97 => Some('\u{1F5E3}'),
        0x98 => Some('\u{272F}'),
        0x99 => Some('\u{1F584}'),
        0x9A => Some('\u{1F585}'),
        0x9B => Some('\u{1F583}'),
        0x9C => Some('\u{1F586}'),
        0x9D => Some('\u{1F5B9}'),
        0x9E => Some('\u{1F5BA}'),
        0x9F => Some('\u{1F5BB}'),
        0xA1 => Some('\u{1F570}'),
        0xA2 => Some('\u{1F5BD}'),
        0xA3 => Some('\u{1F5BE}'),
        0xA4 => Some('\u{1F4CB}'),
        0xA5 => Some('\u{1F5D2}'),
        0xA6 => Some('\u{1F5D3}'),
        0xA7 => Some('\u{1F4D6}'),
        0xA8 => Some('\u{1F4DA}'),
        0xA9 => Some('\u{1F5DE}'),
        0xAA => Some('\u{1F5DF}'),
        0xAB => Some('\u{1F5C3}'),
        0xAC => Some('\u{1F5C2}'),
        0xAD => Some('\u{1F5BC}'),
        0xAE => Some('\u{1F3AD}'),
        0xAF => Some('\u{1F39C}'),
        0xB0 => Some('\u{1F398}'),
        0xB1 => Some('\u{1F399}'),
        0xB2 => Some('\u{1F3A7}'),
        0xB3 => Some('\u{1F4BF}'),
        0xB4 => Some('\u{1F39E}'),
        0xB5 => Some('\u{1F4F7}'),
        0xB6 => Some('\u{1F39F}'),
        0xB7 => Some('\u{1F3AC}'),
        0xB8 => Some('\u{1F4FD}'),
        0xB9 => Some('\u{1F4F9}'),
        0xBA => Some('\u{1F4FE}'),
        0xBB => Some('\u{1F4FB}'),
        0xBC => Some('\u{1F39A}'),
        0xBD => Some('\u{1F39B}'),
        0xBE => Some('\u{1F4FA}'),
        0xBF => Some('\u{1F4BB}'),
        0xC0 => Some('\u{1F5A5}'),
        0xC1 => Some('\u{1F5A6}'),
        0xC2 => Some('\u{1F5A7}'),
        0xC3 => Some('\u{1F579}'),
        0xC4 => Some('\u{1F3AE}'),
        0xC5 => Some('\u{1F57B}'),
        0xC6 => Some('\u{1F57C}'),
        0xC7 => Some('\u{1F4DF}'),
        0xC8 => Some('\u{1F581}'),
        0xC9 => Some('\u{1F580}'),
        0xCA => Some('\u{1F5A8}'),
        0xCB => Some('\u{1F5A9}'),
        0xCC => Some('\u{1F5BF}'),
        0xCD => Some('\u{1F5AA}'),
        0xCE => Some('\u{1F5DC}'),
        0xCF => Some('\u{1F512}'),
        0xD0 => Some('\u{1F513}'),
        0xD1 => Some('\u{1F5DD}'),
        0xD2 => Some('\u{1F4E5}'),
        0xD3 => Some('\u{1F4E4}'),
        0xD4 => Some('\u{1F573}'),
        0xD5 => Some('\u{1F323}'),
        0xD6 => Some('\u{1F324}'),
        0xD7 => Some('\u{1F325}'),
        0xD8 => Some('\u{1F326}'),
        0xD9 => Some('\u{2601}'),
        0xDA => Some('\u{1F327}'),
        0xDB => Some('\u{1F328}'),
        0xDC => Some('\u{1F329}'),
        0xDD => Some('\u{1F32A}'),
        0xDE => Some('\u{1F32C}'),
        0xDF => Some('\u{1F32B}'),
        0xE0 => Some('\u{1F31C}'),
        0xE1 => Some('\u{1F321}'),
        0xE2 => Some('\u{1F6CB}'),
        0xE3 => Some('\u{1F6CF}'),
        0xE4 => Some('\u{1F37D}'),
        0xE5 => Some('\u{1F378}'),
        0xE6 => Some('\u{1F6CE}'),
        0xE7 => Some('\u{1F6CD}'),
        0xE8 => Some('\u{24C5}'),
        0xE9 => Some('\u{267F}'),
        0xEA => Some('\u{1F6C6}'),
        0xEB => Some('\u{1F588}'),
        0xEC => Some('\u{1F393}'),
        0xED => Some('\u{1F5E4}'),
        0xEE => Some('\u{1F5E5}'),
        0xEF => Some('\u{1F5E6}'),
        0xF0 => Some('\u{1F5E7}'),
        0xF1 => Some('\u{1F6EA}'),
        0xF2 => Some('\u{1F43F}'),
        0xF3 => Some('\u{1F426}'),
        0xF4 => Some('\u{1F41F}'),
        0xF5 => Some('\u{1F415}'),
        0xF6 => Some('\u{1F408}'),
        0xF7 => Some('\u{1F66C}'),
        0xF8 => Some('\u{1F66E}'),
        0xF9 => Some('\u{1F66D}'),
        0xFA => Some('\u{1F66F}'),
        0xFB => Some('\u{1F5FA}'),
        0xFC => Some('\u{1F30D}'),
        0xFD => Some('\u{1F30F}'),
        0xFE => Some('\u{1F30E}'),
        0xFF => Some('\u{1F54A}'),
        _ => None,
    }
}

/// The Symbol table.
pub open spec fn spec_symbol_char(cp: u8) -> Option<char> {
    match cp {
        0x20 => Some('\u{00A0}'),
        0x21 => Some('!'),
        0x22 => Some('\u{2200}'),
        0x23 => Some('#'),
        0x24 => Some('\u{2203}'),
        0x25 => Some('%'),
        0x26 => Some('&'),
        0x27 => Some('\u{220b}'),
        0x28 => Some('('),
        0x29 => Some(')'),
        0x2A => Some('\u{2217}'),
        0x2B => Some('+'),
        0x2C => Some(','),
        0x2D => Some('\u{2212}'),
        0x2E => Some('.'),
        0x2F => Some('/'),
        0x30 => Some('0'),
        0x31 => Some('1'),
        0x32 => Some('2'),
        0x33 => Some('3'),
        0x34 => Some('4'),
        0x35 => Some('5'),
        0x36 => Some('6'),
        0x37 => Some('7'),
        0x38 => Some('8'),
        0x39 => Some('9'),
        0x3A => Some(':'),
        0x3B => Some(';'),
        0x3C => Some('<'),
        0x3D => Some('='),
        0x3E => Some('>'),
        0x3F => Some('?'),
        0x40 => Some('\u{2245}'),
        0x41 => Some('\u{391}'),
        0x42 => Some('\u{392}'),
        0x43 => Some('\u{3a7}'),
        0x44 => Some('\u{2206}'),
        0x45 => Some('\u{395}'),
        0x46 => Some('\u{3a6}'),
        0x47 => Some('\u{393}'),
        0x48 => Some('\u{397}'),
        0x49 => Some('\u{399}'),
        0x4A => Some('\u{3d1}'),
        0x4B => Some('\u{39a}'),
        0x4C => Some('\u{39b}'),
        0x4D => Some('\u{39c}'),
        0x4E => Some('\u{39d}'),
        0x4F => Some('\u{39f}'),
        0x50 => Some('\u{3a0}'),
        0x51 => Some('\u{398}'),
        0x52 => Some('\u{3a1}'),
        0x53 => Some('\u{3a3}'),
        0x54 => Some('\u{3a4}'),
        0x55 => Some('\u{3a5}'),
        0x56 => Some('\u{3c2}'),
        0x57 => Some('\u{3a9}'),
        0x58 => Some('\u{39e}'),
        0x59 => Some('\u{3a8}'),
        0x5A => Some('\u{396}'),
        0x5B => Some('['),
        0x5C => Some('\u{2234}'),
        0x5D => Some(']'),
        0x5E => Some('\u{22a5}'),
        0x5F => Some('_'),
        0x60 => Some('\u{F8E5}'),
        0x61 => Some('\u{3b1}'),
        0x62 => Some('\u{3b2}'),
        0x63 => Some('\u{3c7}'),
        0x64 => Some('\u{3b4}'),
        0x65 => Some('\u{3b5}'),
        0x66 => Some('\u{3c6}'),
        0x67 => Some('\u{3b3}'),
        0x68 => Some('\u{3b7}'),
        0x69 => Some('\u{3b9}'),
        0x6A => Some('\u{3d5}'),
        0x6B => Some('\u{3ba}'),
        0x6C => Some('\u{3bb}'),
        0x6D => Some('\u{3bc}'),
        0x6E => Some('\u{3bd}'),
        0x6F => Some('\u{3bf}'),
        0x70 => Some('\u{3c0}'),
        0x71 => Some('\u{3b8}'),
        0x72 => Some('\u{3c1}'),
        0x73 => Some('\u{3c3}'),
        0x74 => Some('\u{3c4}'),
        0x75 => Some('\u{3c5}'),
        0x76 => Some('\u{3d6}'),
        0x77 => Some('\u{3c9}'),
        0x78 => Some('\u{3be}'),
        0x79 => Some('\u{3c8}'),
        0x7A => Some('\u{3b6}'),
        0x7B => Some('{'),
        0x7C => Some('|'),
        0x7D => Some('}'),
        0x7E => Some('\u{223c}'),
        0xA0 => Some('\u{20ac}'),
        0xA1 => Some('\u{3d2}'),
        0xA2 => Some('\u{2032}'),
        0xA3 => Some('\u{2264}'),
        0xA4 => Some('\u{2044}'),
        0xA5 => Some('\u{221e}'),
        0xA6 => Some('\u{192}'),
        0xA7 => Some('\u{2663}'),
        0xA8 => Some('\u{2666}'),
        0xA9 => Some('\u{2665}'),
        0xAA => Some('\u{2660}'),
        0xAB => Some('\u{2194}'),
        0xAC => Some('\u{2190}'),
        0xAD => Some('\u{2191}'),
        0xAE => Some('\u{2192}'),
        0xAF => Some('\u{2193}'),
        0xB0 => Some('\u{b0}'),
        0xB1 => Some('\u{b1}'),
        0xB2 => Some('\u{2033}'),
        0xB3 => Some('\u{2265}'),
        0xB4 => Some('\u{d7}'),
        0xB5 => Some('\u{221d}'),
        0xB6 => Some('\u{2202}'),
        0xB7 => Some('\u{2022}'),
        0xB8 => Some('\u{f7}'),
        0xB9 => Some('\u{2260}'),
        0xBA => Some('\u{2261}'),
        0xBB => Some('\u{2248}'),
        0xBC => Some('\u{2026}'),
        0xBD => Some('\u{F8E6}'),
        0xBE => Some('\u{F8E7}'),
        0xBF => Some('\u{21b5}'),
        0xC0 => Some('\u{2135}'),
        0xC1 => Some('\u{2111}'),
        0xC2 => Some('\u{211c}'),
        0xC3 => Some('\u{2118}'),
        0xC4 => Some('\u{2297}'),
        0xC5 => Some('\u{2295}'),
        0xC6 => Some('\u{2205}'),
        0xC7 => Some('\u{2229}'),
        0xC8 => Some('\u{222a}'),
        0xC9 => Some('\u{2283}'),
        0xCA => Some('\u{2287}'),
        0xCB => Some('\u{2284}'),
        0xCC => Some('\u{2282}'),
        0xCD => Some('\u{2286}'),
        0xCE => Some('\u{2208}'),
        0xCF => Some('\u{2209}'),
        0xD0 => Some('\u{2220}'),
        0xD1 => Some('\u{2207}'),
        0xD2 => Some('\u{F6DA}'),
        0xD3 => Some('\u{F6D9}'),
        0xD4 => Some('\u{F6DB}'),
        0xD5 => Some('\u{220f}'),
        0xD6 => Some('\u{221a}'),
        0xD7 => Some('\u{22c5}'),
        0xD8 => Some('\u{ac}'),
        0xD9 => Some('\u{2227}'),
        0xDA => Some('\u{2228}'),
        0xDB => Some('\u{21d4}'),
        0xDC => Some('\u{21d0}'),
        0xDD => Some('\u{21d1}'),
        0xDE => Some('\u{21d2}'),
        0xDF => Some('\u{21d3}'),
        0xE0 => Some('\u{25ca}'),
        0xE1 => Some('\u{27e8}'),
        0xE2 => Some('\u{F8E8}'),
        0xE3 => Some('\u{F8E9}'),
        0xE4 => Some('\u{F8EA}'),
        0xE5 => Some('\u{2211}'),
        0xE6 => Some('\u{F8EB}'),
        0xE7 => Some('\u{F8EC}'),
        0xE8 => Some('\u{F8ED}'),
        0xE9 => Some('\u{F8EE}'),
        0xEA => Some('\u{F8EF}'),
        0xEB => Some('\u{F8F0}'),
        0xEC => Some('\u{F8F1}'),
        0xED => Some('\u{F8F2}'),
        0xEE => Some('\u{F8F3}'),
        0xEF => Some('\u{F8F4}'),
        0xF1 => Some('\u{27e9}'),
        0xF2 => Some('\u{222b}'),
        0xF3 => Some('\u{2320}'),
        0xF4 => Some('\u{F8F5}'),
        0xF5 => Some('\u{2321}'),
        0xF6 => Some('\u{F8F6}'),
        0xF7 => Some('\u{F8F7}'),
        0xF8 => Some('\u{F8F8}'),
        0xF9 => Some('\u{F8F9}'),
        0xFA => Some('\u{F8FA}'),
        0xFB => Some('\u{F8FB}'),
        0xFC => Some('\u{F8FC}'),
        0xFD => Some('\u{F8FD}'),
        0xFE => Some('\u{F8FE}'),
        _ => None,
    }
}

/// Looks `cp` up in the Symbol table.
pub fn symbol_char(cp: u8) -> (r: Option<char>)
    ensures
        r == spec_symbol_char(cp),
{
    match cp {
        0x20 => Some('\u{00A0}'),
        0x21 => Some('!'),
        0x22 => Some('\u{2200}'),
        0x23 => Some('#'),
        0x24 => Some('\u{2203}'),
        0x25 => Some('%'),
        0x26 => Some('&'),
        0x27 => Some('\u{220b}'),
        0x28 => Some('('),
        0x29 => Some(')'),
        0x2A => Some('\u{2217}'),
        0x2B => Some('+'),
        0x2C => Some(','),
        0x2D => Some('\u{2212}'),
        0x2E => Some('.'),
        0x2F => Some('/'),
        0x30 => Some('0'),
        0x31 => Some('1'),
        0x32 => Some('2'),
        0x33 => Some('3'),
        0x34 => Some('4'),
        0x35 => Some('5'),
        0x36 => Some('6'),
        0x37 => Some('7'),
        0x38 => Some('8'),
        0x39 => Some('9'),
        0x3A => Some(':'),
        0x3B => Some(';'),
        0x3C => Some('<'),
        0x3D => Some('='),
        0x3E => Some('>'),
        0x3F => Some('?'),
        0x40 => Some('\u{2245}'),
        0x41 => Some('\u{391}'),
        0x42 => Some('\u{392}'),
        0x43 => Some('\u{3a7}'),
        0x44 => Some('\u{2206}'),
        0x45 => Some('\u{395}'),
        0x46 => Some('\u{3a6}'),
        0x47 => Some('\u{393}'),
        0x48 => Some('\u{397}'),
        0x49 => Some('\u{399}'),
        0x4A => Some('\u{3d1}'),
        0x4B => Some('\u{39a}'),
        0x4C => Some('\u{39b}'),
        0x4D => Some('\u{39c}'),
        0x4E => Some('\u{39d}'),
        0x4F => Some('\u{39f}'),
        0x50 => Some('\u{3a0}'),
        0x51 => Some('\u{398}'),
        0x52 => Some('\u{3a1}'),
        0x53 => Some('\u{3a3}'),
        0x54 => Some('\u{3a4}'),
        0x55 => Some('\u{3a5}'),
        0x56 => Some('\u{3c2}'),
        0x57 => Some('\u{3a9}'),
        0x58 => Some('\u{39e}'),
        0x59 => Some('\u{3a8}'),
        0x5A => Some('\u{396}'),
        0x5B => Some('['),
        0x5C => Some('\u{2234}'),
        0x5D => Some(']'),
        0x5E => Some('\u{22a5}'),
        0x5F => Some('_'),
        0x60 => Some('\u{F8E5}'),
        0x61 => Some('\u{3b1}'),
        0x62 => Some('\u{3b2}'),
        0x63 => Some('\u{3c7}'),
        0x64 => Some('\u{3b4}'),
        0x65 => Some('\u{3b5}'),
        0x66 => Some('\u{3c6}'),
        0x67 => Some('\u{3b3}'),
        0x68 => Some('\u{3b7}'),
        0x69 => Some('\u{3b9}'),
        0x6A => Some('\u{3d5}'),
        0x6B => Some('\u{3ba}'),
        0x6C => Some('\u{3bb}'),
        0x6D => Some('\u{3bc}'),
        0x6E => Some('\u{3bd}'),
        0x6F => Some('\u{3bf}'),
        0x70 => Some('\u{3c0}'),
        0x71 => Some('\u{3b8}'),
        0x72 => Some('\u{3c1}'),
        0x73 => Some('\u{3c3}'),
        0x74 => Some('\u{3c4}'),
        0x75 => Some('\u{3c5}'),
        0x76 => Some('\u{3d6}'),
        0x77 => Some('\u{3c9}'),
        0x78 => Some('\u{3be}'),
        0x79 => Some('\u{3c8}'),
        0x7A => Some('\u{3b6}'),
        0x7B => Some('{'),
        0x7C => Some('|'),
        0x7D => Some('}'),
        0x7E => Some('\u{223c}'),
        0xA0 => Some('\u{20ac}'),
        0xA1 => Some('\u{3d2}'),
        0xA2 => Some('\u{2032}'),
        0xA3 => Some('\u{2264}'),
        0xA4 => Some('\u{2044}'),
        0xA5 => Some('\u{221e}'),
        0xA6 => Some('\u{192}'),
        0xA7 => Some('\u{2663}'),
        0xA8 => Some('\u{2666}'),
        0xA9 => Some('\u{2665}'),
        0xAA => Some('\u{2660}'),
        0xAB => Some('\u{2194}'),
        0xAC => Some('\u{2190}'),
        0xAD => Some('\u{2191}'),
        0xAE => Some('\u{2192}'),
        0xAF => Some('\u{2193}'),
        0xB0 => Some('\u{b0}'),
        0xB1 => Some('\u{b1}'),
        0xB2 => Some('\u{2033}'),
        0xB3 => Some('\u{2265}'),
        0xB4 => Some('\u{d7}'),
        0xB5 => Some('\u{221d}'),
        0xB6 => Some('\u{2202}'),
        0xB7 => Some('\u{2022}'),
        0xB8 => Some('\u{f7}'),
        0xB9 => Some('\u{2260}'),
        0xBA => Some('\u{2261}'),
        0xBB => Some('\u{2248}'),
        0xBC => Some('\u{2026}'),
        0xBD => Some('\u{F8E6}'),
        0xBE => Some('\u{F8E7}'),
        0xBF => Some('\u{21b5}'),
        0xC0 => Some('\u{2135}'),
        0xC1 => Some('\u{2111}'),
        0xC2 => Some('\u{211c}'),
        0xC3 => Some('\u{2118}'),
        0xC4 => Some('\u{2297}'),
        0xC5 => Some('\u{2295}'),
        0xC6 => Some('\u{2205}'),
        0xC7 => Some('\u{2229}'),
        0xC8 => Some('\u{222a}'),
        0xC9 => Some('\u{2283}'),
        0xCA => Some('\u{2287}'),
        0xCB => Some('\u{2284}'),
        0xCC => Some('\u{2282}'),
        0xCD => Some('\u{2286}'),
        0xCE => Some('\u{2208}'),
        0xCF => Some('\u{2209}'),
        0xD0 => Some('\u{2220}'),
        0xD1 => Some('\u{2207}'),
        0xD2 => Some('\u{F6DA}'),
        0xD3 => Some('\u{F6D9}'),
        0xD4 => Some('\u{F6DB}'),
        0xD5 => Some('\u{220f}'),
        0xD6 => Some('\u{221a}'),
        0xD7 => Some('\u{22c5}'),
        0xD8 => Some('\u{ac}'),
        0xD9 => Some('\u{2227}'),
        0xDA => Some('\u{2228}'),
        0xDB => Some('\u{21d4}'),
        0xDC => Some('\u{21d0}'),
        0xDD => Some('\u{21d1}'),
        0xDE => Some('\u{21d2}'),
        0xDF => Some('\u{21d3}'),
        0xE0 => Some('\u{25ca}'),
        0xE1 => Some('\u{27e8}'),
        0xE2 => Some('\u{F8E8}'),
        0xE3 => Some('\u{F8E9}'),
        0xE4 => Some('\u{F8EA}'),
        0xE5 => Some('\u{2211}'),
        0xE6 => Some('\u{F8EB}'),
        0xE7 => Some('\u{F8EC}'),
        0xE8 => Some('\u{F8ED}'),
        0xE9 => Some('\u{F8EE}'),
        0xEA => Some('\u{F8EF}'),
        0xEB => Some('\u{F8F0}'),
        0xEC => Some('\u{F8F1}'),
        0xED => Some('\u{F8F2}'),
        0xEE => Some('\u{F8F3}'),
        0xEF => Some('\u{F8F4}'),
        0xF1 => Some('\u{27e9}'),
        0xF2 => Some('\u{222b}'),
        0xF3 => Some('\u{2320}'),
        0xF4 => Some('\u{F8F5}'),
        0xF5 => Some('\u{2321}'),
        0xF6 => Some('\u{F8F6}'),
        0xF7 => Some('\u{F8F7}'),
        0xF8 => Some('\u{F8F8}'),
        0xF9 => Some('\u{F8F9}'),
        0xFA => Some('\u{F8FA}'),
        0xFB => Some('\u{F8FB}'),
        0xFC => Some('\u{F8FC}'),
        0xFD => Some('\u{F8FD}'),
        0xFE => Some('\u{F8FE}'),
        _ => None,
    }
}

} // verus!
