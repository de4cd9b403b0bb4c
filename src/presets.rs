//! Well-known layouts, as fixed data: each function states the characters
//! of both layers, slot by slot.
use crate::layout::{KeyMap, Layer, Layout};
use vstd::prelude::*;

verus! {

pub fn rsthd_layout() -> (r: Layout)
    ensures
        r.0@ == seq!['j', 'c', 'y', 'f', 'k', 'z', 'l', ',', 'u', 'q', '\\', 'r', 's', 't', 'h', 'd', 'm', 'n', 'a', 'i', 'o', '\'', '/', 'v', 'g', 'p', 'b', 'x', 'w', '.', ';', '-', 'e', ' ', '*', '*'],
        r.1@ == seq!['J', 'C', 'Y', 'F', 'K', 'Z', 'L', '<', 'U', 'Q', '|', 'R', 'S', 'T', 'H', 'D', 'M', 'N', 'A', 'I', 'O', '"', '?', 'V', 'G', 'P', 'B', 'X', 'W', '>', ':', '_', 'E', ' ', '*', '*'],
{
    let r = Layout(
        Layer(KeyMap([
            'j', 'c', 'y', 'f', 'k', 'z', 'l', ',', 'u', 'q', '\\',
            'r', 's', 't', 'h', 'd', 'm', 'n', 'a', 'i', 'o', '\'',
            '/', 'v', 'g', 'p', 'b', 'x', 'w', '.', ';', '-',
            'e', ' ',
            '*', '*',
        ])),
        Layer(KeyMap([
            'J', 'C', 'Y', 'F', 'K', 'Z', 'L', '<', 'U', 'Q', '|',
            'R', 'S', 'T', 'H', 'D', 'M', 'N', 'A', 'I', 'O', '"',
            '?', 'V', 'G', 'P', 'B', 'X', 'W', '>', ':', '_',
            'E', ' ',
            '*', '*',
        ])),
    );
    assert(r.0@ =~= seq!['j', 'c', 'y', 'f', 'k', 'z', 'l', ',', 'u', 'q', '\\', 'r', 's', 't', 'h', 'd', 'm', 'n', 'a', 'i', 'o', '\'', '/', 'v', 'g', 'p', 'b', 'x', 'w', '.', ';', '-', 'e', ' ', '*', '*']);
    assert(r.1@ =~= seq!['J', 'C', 'Y', 'F', 'K', 'Z', 'L', '<', 'U', 'Q', '|', 'R', 'S', 'T', 'H', 'D', 'M', 'N', 'A', 'I', 'O', '"', '?', 'V', 'G', 'P', 'B', 'X', 'W', '>', ':', '_', 'E', ' ', '*', '*']);
    r
}

pub fn qwerty_layout() -> (r: Layout)
    ensures
        r.0@ == seq!['q', 'w', 'e', 'r', 't', 'y', 'u', 'i', 'o', 'p', '*', 'a', 's', 'd', 'f', 'g', 'h', 'j', 'k', 'l', ';', '*', 'z', 'x', 'c', 'v', 'b', 'n', 'm', ',', '.', '/', '*', ' ', '*', '*'],
        r.1@ == seq!['Q', 'W', 'E', 'R', 'T', 'Y', 'U', 'I', 'O', 'P', '*', 'A', 'S', 'D', 'F', 'G', 'H', 'J', 'K', 'L', ':', '*', 'Z', 'X', 'C', 'V', 'B', 'N', 'M', '<', '>', '?', '*', ' ', '*', '*'],
{
    let r = Layout(
        Layer(KeyMap([
            'q', 'w', 'e', 'r', 't', 'y', 'u', 'i', 'o', 'p', '*',
            'a', 's', 'd', 'f', 'g', 'h', 'j', 'k', 'l', ';', '*',
            'z', 'x', 'c', 'v', 'b', 'n', 'm', ',', '.', '/',
            '*', ' ',
            '*', '*',
        ])),
        Layer(KeyMap([
            'Q', 'W', 'E', 'R', 'T', 'Y', 'U', 'I', 'O', 'P', '*',
            'A', 'S', 'D', 'F', 'G', 'H', 'J', 'K', 'L', ':', '*',
            'Z', 'X', 'C', 'V', 'B', 'N', 'M', '<', '>', '?',
            '*', ' ',
            '*', '*',
        ])),
    );
    assert(r.0@ =~= seq!['q', 'w', 'e', 'r', 't', 'y', 'u', 'i', 'o', 'p', '*', 'a', 's', 'd', 'f', 'g', 'h', 'j', 'k', 'l', ';', '*', 'z', 'x', 'c', 'v', 'b', 'n', 'm', ',', '.', '/', '*', ' ', '*', '*']);
    assert(r.1@ =~= seq!['Q', 'W', 'E', 'R', 'T', 'Y', 'U', 'I', 'O', 'P', '*', 'A', 'S', 'D', 'F', 'G', 'H', 'J', 'K', 'L', ':', '*', 'Z', 'X', 'C', 'V', 'B', 'N', 'M', '<', '>', '?', '*', ' ', '*', '*']);
    r
}

pub fn dvorak_layout() -> (r: Layout)
    ensures
        r.0@ == seq!['/', ',', '.', 'p', 'y', 'f', 'g', 'c', 'r', 'l', '*', 'a', 'o', 'e', 'u', 'i', 'd', 'h', 't', 'n', 's', '*', ';', 'q', 'j', 'k', 'x', 'b', 'm', 'w', 'v', 'z', '*', ' ', '*', '*'],
        r.1@ == seq!['?', '<', '>', 'P', 'Y', 'F', 'G', 'C', 'R', 'L', '*', 'A', 'O', 'E', 'U', 'I', 'D', 'H', 'T', 'N', 'S', '*', ':', 'Q', 'J', 'K', 'X', 'B', 'M', 'W', 'V', 'Z', '*', ' ', '*', '*'],
{
    let r = Layout(
        Layer(KeyMap([
            '/', ',', '.', 'p', 'y', 'f', 'g', 'c', 'r', 'l', '*',
            'a', 'o', 'e', 'u', 'i', 'd', 'h', 't', 'n', 's', '*',
            ';', 'q', 'j', 'k', 'x', 'b', 'm', 'w', 'v', 'z',
            '*', ' ',
            '*', '*',
        ])),
        Layer(KeyMap([
            '?', '<', '>', 'P', 'Y', 'F', 'G', 'C', 'R', 'L', '*',
            'A', 'O', 'E', 'U', 'I', 'D', 'H', 'T', 'N', 'S', '*',
            ':', 'Q', 'J', 'K', 'X', 'B', 'M', 'W', 'V', 'Z',
            '*', ' ',
            '*', '*',
        ])),
    );
    assert(r.0@ =~= seq!['/', ',', '.', 'p', 'y', 'f', 'g', 'c', 'r', 'l', '*', 'a', 'o', 'e', 'u', 'i', 'd', 'h', 't', 'n', 's', '*', ';', 'q', 'j', 'k', 'x', 'b', 'm', 'w', 'v', 'z', '*', ' ', '*', '*']);
    assert(r.1@ =~= seq!['?', '<', '>', 'P', 'Y', 'F', 'G', 'C', 'R', 'L', '*', 'A', 'O', 'E', 'U', 'I', 'D', 'H', 'T', 'N', 'S', '*', ':', 'Q', 'J', 'K', 'X', 'B', 'M', 'W', 'V', 'Z', '*', ' ', '*', '*']);
    r
}

pub fn colemak_layout() -> (r: Layout)
    ensures
        r.0@ == seq!['q', 'w', 'f', 'p', 'g', 'j', 'l', 'u', 'y', ';', '*', 'a', 'r', 's', 't', 'd', 'h', 'n', 'e', 'i', 'o', '*', 'z', 'x', 'c', 'v', 'b', 'k', 'm', ',', '.', '/', '*', ' ', '*', '*'],
        r.1@ == seq!['Q', 'W', 'F', 'P', 'G', 'J', 'L', 'U', 'Y', ':', '*', 'A', 'R', 'S', 'T', 'D', 'H', 'N', 'E', 'I', 'O', '*', 'Z', 'X', 'C', 'V', 'B', 'K', 'M', '<', '>', '?', '*', ' ', '*', '*'],
{
    let r = Layout(
        Layer(KeyMap([
            'q', 'w', 'f', 'p', 'g', 'j', 'l', 'u', 'y', ';', '*',
            'a', 'r', 's', 't', 'd', 'h', 'n', 'e', 'i', 'o', '*',
            'z', 'x', 'c', 'v', 'b', 'k', 'm', ',', '.', '/',
            '*', ' ',
            '*', '*',
        ])),
        Layer(KeyMap([
            'Q', 'W', 'F', 'P', 'G', 'J', 'L', 'U', 'Y', ':', '*',
            'A', 'R', 'S', 'T', 'D', 'H', 'N', 'E', 'I', 'O', '*',
            'Z', 'X', 'C', 'V', 'B', 'K', 'M', '<', '>', '?',
            '*', ' ',
            '*', '*',
        ])),
    );
    assert(r.0@ =~= seq!['q', 'w', 'f', 'p', 'g', 'j', 'l', 'u', 'y', ';', '*', 'a', 'r', 's', 't', 'd', 'h', 'n', 'e', 'i', 'o', '*', 'z', 'x', 'c', 'v', 'b', 'k', 'm', ',', '.', '/', '*', ' ', '*', '*']);
    assert(r.1@ =~= seq!['Q', 'W', 'F', 'P', 'G', 'J', 'L', 'U', 'Y', ':', '*', 'A', 'R', 'S', 'T', 'D', 'H', 'N', 'E', 'I', 'O', '*', 'Z', 'X', 'C', 'V', 'B', 'K', 'M', '<', '>', '?', '*', ' ', '*', '*']);
    r
}

pub fn colemak_dh_layout() -> (r: Layout)
    ensures
        r.0@ == seq!['q', 'w', 'f', 'p', 'b', 'j', 'l', 'u', 'y', ';', '*', 'a', 'r', 's', 't', 'g', 'm', 'n', 'e', 'i', 'o', '*', 'z', 'x', 'c', 'd', 'v', 'k', 'h', ',', '.', '/', '*', ' ', '*', '*'],
        r.1@ == seq!['Q', 'W', 'F', 'P', 'B', 'J', 'L', 'U', 'Y', ':', '*', 'A', 'R', 'S', 'T', 'G', 'M', 'N', 'E', 'I', 'O', '*', 'Z', 'X', 'C', 'D', 'V', 'K', 'H', '<', '>', '?', '*', ' ', '*', '*'],
{
    let r = Layout(
        Layer(KeyMap([
            'q', 'w', 'f', 'p', 'b', 'j', 'l', 'u', 'y', ';', '*',
            'a', 'r', 's', 't', 'g', 'm', 'n', 'e', 'i', 'o', '*',
            'z', 'x', 'c', 'd', 'v', 'k', 'h', ',', '.', '/',
            '*', ' ',
            '*', '*',
        ])),
        Layer(KeyMap([
            'Q', 'W', 'F', 'P', 'B', 'J', 'L', 'U', 'Y', ':', '*',
            'A', 'R', 'S', 'T', 'G', 'M', 'N', 'E', 'I', 'O', '*',
            'Z', 'X', 'C', 'D', 'V', 'K', 'H', '<', '>', '?',
            '*', ' ',
            '*', '*',
        ])),
    );
    assert(r.0@ =~= seq!['q', 'w', 'f', 'p', 'b', 'j', 'l', 'u', 'y', ';', '*', 'a', 'r', 's', 't', 'g', 'm', 'n', 'e', 'i', 'o', '*', 'z', 'x', 'c', 'd', 'v', 'k', 'h', ',', '.', '/', '*', ' ', '*', '*']);
    assert(r.1@ =~= seq!['Q', 'W', 'F', 'P', 'B', 'J', 'L', 'U', 'Y', ':', '*', 'A', 'R', 'S', 'T', 'G', 'M', 'N', 'E', 'I', 'O', '*', 'Z', 'X', 'C', 'D', 'V', 'K', 'H', '<', '>', '?', '*', ' ', '*', '*']);
    r
}

pub fn qgmlwy_layout() -> (r: Layout)
    ensures
        r.0@ == seq!['q', 'g', 'm', 'l', 'w', 'y', 'f', 'u', 'b', ';', '*', 'd', 's', 't', 'n', 'r', 'i', 'a', 'e', 'o', 'h', '*', 'z', 'x', 'c', 'v', 'j', 'k', 'p', ',', '.', '/', '*', ' ', '*', '*'],
        r.1@ == seq!['Q', 'G', 'M', 'L', 'W', 'Y', 'F', 'U', 'B', ':', '*', 'D', 'S', 'T', 'N', 'R', 'I', 'A', 'E', 'O', 'H', '*', 'Z', 'X', 'C', 'V', 'J', 'K', 'P', '<', '>', '?', '*', ' ', '*', '*'],
{
    let r = Layout(
        Layer(KeyMap([
            'q', 'g', 'm', 'l', 'w', 'y', 'f', 'u', 'b', ';', '*',
            'd', 's', 't', 'n', 'r', 'i', 'a', 'e', 'o', 'h', '*',
            'z', 'x', 'c', 'v', 'j', 'k', 'p', ',', '.', '/',
            '*', ' ',
            '*', '*',
        ])),
        Layer(KeyMap([
            'Q', 'G', 'M', 'L', 'W', 'Y', 'F', 'U', 'B', ':', '*',
            'D', 'S', 'T', 'N', 'R', 'I', 'A', 'E', 'O', 'H', '*',
            'Z', 'X', 'C', 'V', 'J', 'K', 'P', '<', '>', '?',
            '*', ' ',
            '*', '*',
        ])),
    );
    assert(r.0@ =~= seq!['q', 'g', 'm', 'l', 'w', 'y', 'f', 'u', 'b', ';', '*', 'd', 's', 't', 'n', 'r', 'i', 'a', 'e', 'o', 'h', '*', 'z', 'x', 'c', 'v', 'j', 'k', 'p', ',', '.', '/', '*', ' ', '*', '*']);
    assert(r.1@ =~= seq!['Q', 'G', 'M', 'L', 'W', 'Y', 'F', 'U', 'B', ':', '*', 'D', 'S', 'T', 'N', 'R', 'I', 'A', 'E', 'O', 'H', '*', 'Z', 'X', 'C', 'V', 'J', 'K', 'P', '<', '>', '?', '*', ' ', '*', '*']);
    r
}

pub fn workman_layout() -> (r: Layout)
    ensures
        r.0@ == seq!['q', 'd', 'r', 'w', 'b', 'j', 'f', 'u', 'p', ';', '*', 'a', 's', 'h', 't', 'g', 'y', 'n', 'e', 'o', 'i', '*', 'z', 'x', 'm', 'c', 'v', 'k', 'l', ',', '.', '/', '*', ' ', '*', '*'],
        r.1@ == seq!['Q', 'D', 'R', 'W', 'B', 'J', 'F', 'U', 'P', ':', '*', 'A', 'S', 'H', 'T', 'G', 'Y', 'N', 'E', 'O', 'I', '*', 'Z', 'X', 'M', 'C', 'V', 'K', 'L', '<', '>', '?', '*', ' ', '*', '*'],
{
    let r = Layout(
        Layer(KeyMap([
            'q', 'd', 'r', 'w', 'b', 'j', 'f', 'u', 'p', ';', '*',
            'a', 's', 'h', 't', 'g', 'y', 'n', 'e', 'o', 'i', '*',
            'z', 'x', 'm', 'c', 'v', 'k', 'l', ',', '.', '/',
            '*', ' ',
            '*', '*',
        ])),
        Layer(KeyMap([
            'Q', 'D', 'R', 'W', 'B', 'J', 'F', 'U', 'P', ':', '*',
            'A', 'S', 'H', 'T', 'G', 'Y', 'N', 'E', 'O', 'I', '*',
            'Z', 'X', 'M', 'C', 'V', 'K', 'L', '<', '>', '?',
            '*', ' ',
            '*', '*',
        ])),
    );
    assert(r.0@ =~= seq!['q', 'd', 'r', 'w', 'b', 'j', 'f', 'u', 'p', ';', '*', 'a', 's', 'h', 't', 'g', 'y', 'n', 'e', 'o', 'i', '*', 'z', 'x', 'm', 'c', 'v', 'k', 'l', ',', '.', '/', '*', ' ', '*', '*']);
    assert(r.1@ =~= seq!['Q', 'D', 'R', 'W', 'B', 'J', 'F', 'U', 'P', ':', '*', 'A', 'S', 'H', 'T', 'G', 'Y', 'N', 'E', 'O', 'I', '*', 'Z', 'X', 'M', 'C', 'V', 'K', 'L', '<', '>', '?', '*', ' ', '*', '*']);
    r
}

pub fn maltron_layout() -> (r: Layout)
    ensures
        r.0@ == seq!['q', 'p', 'y', 'c', 'b', 'v', 'm', 'u', 'z', 'l', '*', 'a', 'n', 'i', 's', 'f', 'd', 't', 'h', 'o', 'r', '*', ',', '.', 'j', 'g', '/', ';', 'w', 'k', '-', 'x', 'e', ' ', '*', '*'],
        r.1@ == seq!['Q', 'P', 'Y', 'C', 'B', 'V', 'M', 'U', 'Z', 'L', '*', 'A', 'N', 'I', 'S', 'F', 'D', 'T', 'H', 'O', 'R', '*', '<', '>', 'J', 'G', '?', ':', 'W', 'K', '_', 'X', 'E', ' ', '*', '*'],
{
    let r = Layout(
        Layer(KeyMap([
            'q', 'p', 'y', 'c', 'b', 'v', 'm', 'u', 'z', 'l', '*',
            'a', 'n', 'i', 's', 'f', 'd', 't', 'h', 'o', 'r', '*',
            ',', '.', 'j', 'g', '/', ';', 'w', 'k', '-', 'x',
            'e', ' ',
            '*', '*',
        ])),
        Layer(KeyMap([
            'Q', 'P', 'Y', 'C', 'B', 'V', 'M', 'U', 'Z', 'L', '*',
            'A', 'N', 'I', 'S', 'F', 'D', 'T', 'H', 'O', 'R', '*',
            '<', '>', 'J', 'G', '?', ':', 'W', 'K', '_', 'X',
            'E', ' ',
            '*', '*',
        ])),
    );
    assert(r.0@ =~= seq!['q', 'p', 'y', 'c', 'b', 'v', 'm', 'u', 'z', 'l', '*', 'a', 'n', 'i', 's', 'f', 'd', 't', 'h', 'o', 'r', '*', ',', '.', 'j', 'g', '/', ';', 'w', 'k', '-', 'x', 'e', ' ', '*', '*']);
    assert(r.1@ =~= seq!['Q', 'P', 'Y', 'C', 'B', 'V', 'M', 'U', 'Z', 'L', '*', 'A', 'N', 'I', 'S', 'F', 'D', 'T', 'H', 'O', 'R', '*', '<', '>', 'J', 'G', '?', ':', 'W', 'K', '_', 'X', 'E', ' ', '*', '*']);
    r
}

pub fn mtgap_layout() -> (r: Layout)
    ensures
        r.0@ == seq!['y', 'p', 'o', 'u', 'j', 'b', 'd', 'l', 'c', 'k', '*', 'i', 'n', 'e', 'a', ',', 'm', 'h', 't', 's', 'r', '*', '-', ';', '/', '.', 'v', 'q', 'f', 'w', 'g', 'x', 'z', ' ', '*', '*'],
        r.1@ == seq!['Y', 'P', 'O', 'U', 'J', 'B', 'D', 'L', 'C', 'K', '*', 'I', 'N', 'E', 'A', '<', 'M', 'H', 'T', 'S', 'R', '*', '_', ':', '?', '>', 'V', 'Q', 'F', 'W', 'G', 'X', 'Z', ' ', '*', '*'],
{
    let r = Layout(
        Layer(KeyMap([
            'y', 'p', 'o', 'u', 'j', 'b', 'd', 'l', 'c', 'k', '*',
            'i', 'n', 'e', 'a', ',', 'm', 'h', 't', 's', 'r', '*',
            '-', ';', '/', '.', 'v', 'q', 'f', 'w', 'g', 'x',
            'z', ' ',
            '*', '*',
        ])),
        Layer(KeyMap([
            'Y', 'P', 'O', 'U', 'J', 'B', 'D', 'L', 'C', 'K', '*',
            'I', 'N', 'E', 'A', '<', 'M', 'H', 'T', 'S', 'R', '*',
            '_', ':', '?', '>', 'V', 'Q', 'F', 'W', 'G', 'X',
            'Z', ' ',
            '*', '*',
        ])),
    );
    assert(r.0@ =~= seq!['y', 'p', 'o', 'u', 'j', 'b', 'd', 'l', 'c', 'k', '*', 'i', 'n', 'e', 'a', ',', 'm', 'h', 't', 's', 'r', '*', '-', ';', '/', '.', 'v', 'q', 'f', 'w', 'g', 'x', 'z', ' ', '*', '*']);
    assert(r.1@ =~= seq!['Y', 'P', 'O', 'U', 'J', 'B', 'D', 'L', 'C', 'K', '*', 'I', 'N', 'E', 'A', '<', 'M', 'H', 'T', 'S', 'R', '*', '_', ':', '?', '>', 'V', 'Q', 'F', 'W', 'G', 'X', 'Z', ' ', '*', '*']);
    r
}

pub fn capewell_layout() -> (r: Layout)
    ensures
        r.0@ == seq!['.', 'y', 'w', 'd', 'f', 'j', 'p', 'l', 'u', 'q', '*', 'a', 'e', 'r', 's', 'g', 'b', 't', 'n', 'i', 'o', '*', 'x', 'z', 'c', 'v', ';', 'k', 'w', 'h', ',', '/', '*', ' ', '*', '*'],
        r.1@ == seq!['>', 'Y', 'W', 'D', 'F', 'J', 'P', 'L', 'U', 'Q', '*', 'A', 'E', 'R', 'S', 'G', 'B', 'T', 'N', 'I', 'O', '*', 'X', 'Z', 'C', 'V', ':', 'K', 'W', 'H', '<', '?', '*', ' ', '*', '*'],
{
    let r = Layout(
        Layer(KeyMap([
            '.', 'y', 'w', 'd', 'f', 'j', 'p', 'l', 'u', 'q', '*',
            'a', 'e', 'r', 's', 'g', 'b', 't', 'n', 'i', 'o', '*',
            'x', 'z', 'c', 'v', ';', 'k', 'w', 'h', ',', '/',
            '*', ' ',
            '*', '*',
        ])),
        Layer(KeyMap([
            '>', 'Y', 'W', 'D', 'F', 'J', 'P', 'L', 'U', 'Q', '*',
            'A', 'E', 'R', 'S', 'G', 'B', 'T', 'N', 'I', 'O', '*',
            'X', 'Z', 'C', 'V', ':', 'K', 'W', 'H', '<', '?',
            '*', ' ',
            '*', '*',
        ])),
    );
    assert(r.0@ =~= seq!['.', 'y', 'w', 'd', 'f', 'j', 'p', 'l', 'u', 'q', '*', 'a', 'e', 'r', 's', 'g', 'b', 't', 'n', 'i', 'o', '*', 'x', 'z', 'c', 'v', ';', 'k', 'w', 'h', ',', '/', '*', ' ', '*', '*']);
    assert(r.1@ =~= seq!['>', 'Y', 'W', 'D', 'F', 'J', 'P', 'L', 'U', 'Q', '*', 'A', 'E', 'R', 'S', 'G', 'B', 'T', 'N', 'I', 'O', '*', 'X', 'Z', 'C', 'V', ':', 'K', 'W', 'H', '<', '?', '*', ' ', '*', '*']);
    r
}

pub fn arensito_layout() -> (r: Layout)
    ensures
        r.0@ == seq!['q', 'l', ',', 'p', ';', '/', 'f', 'u', 'd', 'k', '*', 'a', 'r', 'e', 'n', 'b', 'g', 's', 'i', 't', 'o', '*', 'z', 'w', '.', 'h', 'j', 'v', 'c', 'y', 'm', 'x', '*', ' ', '*', '*'],
        r.1@ == seq!['Q', 'L', '<', 'P', ':', '?', 'F', 'U', 'D', 'K', '*', 'A', 'R', 'E', 'N', 'B', 'G', 'S', 'I', 'T', 'O', '*', 'Z', 'W', '>', 'H', 'J', 'V', 'C', 'Y', 'M', 'X', '*', ' ', '*', '*'],
{
    let r = Layout(
        Layer(KeyMap([
            'q', 'l', ',', 'p', ';', '/', 'f', 'u', 'd', 'k', '*',
            'a', 'r', 'e', 'n', 'b', 'g', 's', 'i', 't', 'o', '*',
            'z', 'w', '.', 'h', 'j', 'v', 'c', 'y', 'm', 'x',
            '*', ' ',
            '*', '*',
        ])),
        Layer(KeyMap([
            'Q', 'L', '<', 'P', ':', '?', 'F', 'U', 'D', 'K', '*',
            'A', 'R', 'E', 'N', 'B', 'G', 'S', 'I', 'T', 'O', '*',
            'Z', 'W', '>', 'H', 'J', 'V', 'C', 'Y', 'M', 'X',
            '*', ' ',
            '*', '*',
        ])),
    );
    assert(r.0@ =~= seq!['q', 'l', ',', 'p', ';', '/', 'f', 'u', 'd', 'k', '*', 'a', 'r', 'e', 'n', 'b', 'g', 's', 'i', 't', 'o', '*', 'z', 'w', '.', 'h', 'j', 'v', 'c', 'y', 'm', 'x', '*', ' ', '*', '*']);
    assert(r.1@ =~= seq!['Q', 'L', '<', 'P', ':', '?', 'F', 'U', 'D', 'K', '*', 'A', 'R', 'E', 'N', 'B', 'G', 'S', 'I', 'T', 'O', '*', 'Z', 'W', '>', 'H', 'J', 'V', 'C', 'Y', 'M', 'X', '*', ' ', '*', '*']);
    r
}

} // verus!
