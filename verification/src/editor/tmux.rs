use vstd::prelude::*;
use vstd::string::StringSliceAdditionalSpecFns;

verus! {

/// What goes before each Kitty graphics command: the tmux passthrough
/// opening `ESC P tmux;` inside tmux, nothing outside.
pub open spec fn kitty_start(tmux: bool) -> Seq<u8> {
    if tmux {
        seq![0x1bu8, 0x50u8, 0x74u8, 0x6du8, 0x75u8, 0x78u8, 0x3bu8]
    } else {
        Seq::empty()
    }
}

/// The escape byte, doubled inside the tmux passthrough.
pub open spec fn kitty_esc(tmux: bool) -> Seq<u8> {
    if tmux {
        seq![0x1bu8, 0x1bu8]
    } else {
        seq![0x1bu8]
    }
}

/// What closes each command: the tmux string terminator `ESC \` inside tmux.
pub open spec fn kitty_end(tmux: bool) -> Seq<u8> {
    if tmux {
        seq![0x1bu8, 0x5cu8]
    } else {
        Seq::empty()
    }
}

/// A complete Kitty APC command `ESC _G <params> ESC \`, wrapped for tmux when asked.
pub open spec fn kitty_cmd(params: Seq<u8>, tmux: bool) -> Seq<u8> {
    kitty_start(tmux) + kitty_esc(tmux) + seq![0x5fu8, 0x47u8] + params + kitty_esc(tmux) + seq![0x5cu8]
        + kitty_end(tmux)
}

/// A Kitty APC command carrying a payload: `ESC _G <params>;<data> ESC \`.
pub open spec fn kitty_cmd_with_data(params: Seq<u8>, data: Seq<u8>, tmux: bool) -> Seq<u8> {
    kitty_start(tmux) + kitty_esc(tmux) + seq![0x5fu8, 0x47u8] + params + seq![0x3bu8] + data + kitty_esc(
        tmux,
    ) + seq![0x5cu8] + kitty_end(tmux)
}

fn push_bytes(out: &mut Vec<u8>, items: &[u8])
    ensures
        final(out)@ == old(out)@ + items@,
{
    let mut j: usize = 0;
    while j < items.len()
        invariant
            j <= items@.len(),
            out@ == old(out)@ + items@.take(j as int),
        decreases items@.len() - j,
    {
        out.push(items[j]);
        j += 1;
        assert(items@.take(j as int) =~= items@.take(j - 1).push(items@[j - 1]));
    }
    assert(items@.take(items@.len() as int) =~= items@);
}

fn push_start(out: &mut Vec<u8>, tmux: bool)
    ensures
        final(out)@ == old(out)@ + kitty_start(tmux),
{
    if tmux {
        out.push(0x1b);
        out.push(0x50);
        out.push(0x74);
        out.push(0x6d);
        out.push(0x75);
        out.push(0x78);
        out.push(0x3b);
    }
    assert(final(out)@ =~= old(out)@ + kitty_start(tmux)) by {
        assert(out@ =~= old(out)@ + kitty_start(tmux));
    }
}

fn push_esc(out: &mut Vec<u8>, tmux: bool)
    ensures
        final(out)@ == old(out)@ + kitty_esc(tmux),
{
    out.push(0x1b);
    if tmux {
        out.push(0x1b);
    }
    assert(out@ =~= old(out)@ + kitty_esc(tmux));
}

fn push_end(out: &mut Vec<u8>, tmux: bool)
    ensures
        final(out)@ == old(out)@ + kitty_end(tmux),
{
    if tmux {
        out.push(0x1b);
        out.push(0x5c);
    }
    assert(out@ =~= old(out)@ + kitty_end(tmux));
}

/// Append a complete Kitty APC command to `out`, wrapped in the DCS
/// passthrough when `tmux` is set. Writing to memory cannot fail.
pub fn write_kitty_cmd_inner(out: &mut Vec<u8>, params: &str, tmux: bool) -> (r: Result<(), String>)
    ensures
        r is Ok,
        final(out)@ == old(out)@ + kitty_cmd(params.spec_bytes(), tmux),
{
    push_start(out, tmux);
    push_esc(out, tmux);
    out.push(0x5f);
    out.push(0x47);
    push_bytes(out, params.as_bytes());
    push_esc(out, tmux);
    out.push(0x5c);
    push_end(out, tmux);
    assert(out@ =~= old(out)@ + kitty_cmd(params.spec_bytes(), tmux));
    Ok(())
}

/// Append a Kitty APC command with a data payload (a base64 chunk) to `out`.
pub fn write_kitty_cmd_with_data_inner(out: &mut Vec<u8>, params: &str, data: &[u8], tmux: bool) -> (r: Result<(), String>)
    ensures
        r is Ok,
        final(out)@ == old(out)@ + kitty_cmd_with_data(params.spec_bytes(), data@, tmux),
{
    push_start(out, tmux);
    push_esc(out, tmux);
    out.push(0x5f);
    out.push(0x47);
    push_bytes(out, params.as_bytes());
    out.push(0x3b);
    push_bytes(out, data);
    push_esc(out, tmux);
    out.push(0x5c);
    push_end(out, tmux);
    assert(out@ =~= old(out)@ + kitty_cmd_with_data(params.spec_bytes(), data@, tmux));
    Ok(())
}

} // verus!
