//! The fingerprint of an execution: a hash over its command, its arguments,
//! its limits and the content of its inputs. The identifiers of the input
//! files do not enter it, only their paths in the sandbox and their keys.

use vstd::prelude::*;
use vstd::bytes::{spec_u128_to_le_bytes, spec_u64_to_le_bytes, u128_to_le_bytes, u64_to_le_bytes};
use vstd::utf8::encode_utf8;
use crate::dag::execution::{Execution, ExecutionCommand, ExecutionInput, ExecutionLimits};
use crate::store::FileStoreKey;

verus! {

/// A fingerprint. Executions with the same fingerprint give the same result.
pub type Fingerprint = FileStoreKey;

/// A length as it is written: eight bytes.
pub open spec fn encode_length(length: nat) -> Seq<u8> {
    spec_u64_to_le_bytes(length as u64)
}

/// A text as it is written: the length of its UTF-8 form, then that form.
pub open spec fn encode_text(text: Seq<char>) -> Seq<u8> {
    encode_length(encode_utf8(text).len()) + encode_utf8(text)
}

/// An optional limit as it is written: a zero byte, or a one byte and the limit.
pub open spec fn encode_limit(limit: Option<u64>) -> Seq<u8> {
    match limit {
        Some(value) => seq![1u8] + spec_u64_to_le_bytes(value),
        None => seq![0u8],
    }
}

/// A small optional limit as it is written.
pub open spec fn encode_small_limit(limit: Option<u32>) -> Seq<u8> {
    match limit {
        Some(value) => seq![1u8] + spec_u64_to_le_bytes(value as u64),
        None => seq![0u8],
    }
}

/// A flag as it is written: one byte.
pub open spec fn encode_flag(flag: bool) -> Seq<u8> {
    if flag {
        seq![1u8]
    } else {
        seq![0u8]
    }
}

/// A key as it is written: its two halves.
pub open spec fn encode_key(key: FileStoreKey) -> Seq<u8> {
    spec_u128_to_le_bytes(key.head) + spec_u128_to_le_bytes(key.tail)
}

/// A command as it is written: its kind, then its text.
pub open spec fn encode_command(command: ExecutionCommand) -> Seq<u8> {
    match command {
        ExecutionCommand::System(name) => seq![0u8] + encode_text(name@),
        ExecutionCommand::Local(path) => seq![1u8] + encode_text(path@),
    }
}

/// Arguments as they are written, one after the other.
pub open spec fn encode_args(args: Seq<String>) -> Seq<u8>
    decreases args.len(),
{
    if args.len() == 0 {
        seq![]
    } else {
        encode_args(args.drop_last()) + encode_text(args.last()@)
    }
}

/// Limits as they are written, field after field.
pub open spec fn encode_limits(limits: ExecutionLimits) -> Seq<u8> {
    encode_limit(limits.cpu_time) + encode_limit(limits.sys_time) + encode_limit(limits.wall_time)
        + encode_limit(limits.memory) + encode_small_limit(limits.nproc) + encode_small_limit(
        limits.nofile,
    ) + encode_limit(limits.fsize) + encode_flag(limits.read_only) + encode_flag(
        limits.mount_tmpfs,
    )
}

/// Inputs as they are written: for each its path, the key of its content, and
/// whether it is executable. `keys` holds one key for each input.
pub open spec fn encode_inputs(inputs: Seq<ExecutionInput>, keys: Seq<FileStoreKey>) -> Seq<u8>
    decreases inputs.len(),
{
    if inputs.len() == 0 {
        seq![]
    } else {
        encode_inputs(inputs.drop_last(), keys.take(inputs.len() - 1)) + encode_text(
            inputs.last().path@,
        ) + encode_key(keys[inputs.len() - 1]) + encode_flag(inputs.last().executable)
    }
}

/// The standard input as it is written: a zero byte, or a one byte and the key
/// of its content, which is the first of `keys`.
pub open spec fn encode_stdin(execution: Execution, keys: Seq<FileStoreKey>) -> Seq<u8> {
    if execution.stdin is Some {
        seq![1u8] + encode_key(keys[0])
    } else {
        seq![0u8]
    }
}

/// The keys of the inputs among the keys of the dependencies.
pub open spec fn input_keys(execution: Execution, keys: Seq<FileStoreKey>) -> Seq<FileStoreKey> {
    if execution.stdin is Some {
        keys.skip(1)
    } else {
        keys
    }
}

/// What the fingerprint is the hash of. `keys` holds the key of the content of
/// each dependency of the execution, in the order of its dependencies.
pub open spec fn description_of(execution: Execution, keys: Seq<FileStoreKey>) -> Seq<u8> {
    encode_command(execution.command) + encode_length(execution.args@.len()) + encode_args(
        execution.args@,
    ) + encode_limits(execution.limits) + encode_stdin(execution, keys) + encode_length(
        execution.inputs@.len(),
    ) + encode_inputs(execution.inputs@, input_keys(execution, keys))
}

/// The fingerprint of an execution whose dependencies have these keys.
pub open spec fn fingerprint_of(execution: Execution, keys: Seq<FileStoreKey>) -> Fingerprint {
    FileStoreKey::of(description_of(execution, keys))
}

/// Writes a length.
fn write_length(buffer: &mut Vec<u8>, length: usize)
    ensures
        final(buffer)@ == old(buffer)@ + encode_length(length as nat),
{
    let mut bytes = u64_to_le_bytes(length as u64);
    buffer.append(&mut bytes);
}

/// Writes a text.
fn write_text(buffer: &mut Vec<u8>, text: &str)
    ensures
        final(buffer)@ == old(buffer)@ + encode_text(text@),
{
    let bytes = text.as_bytes();
    write_length(buffer, bytes.len());
    buffer.extend_from_slice(bytes);
    assert(buffer@ =~= old(buffer)@ + encode_text(text@));
}

/// Writes an optional limit.
fn write_limit(buffer: &mut Vec<u8>, limit: Option<u64>)
    ensures
        final(buffer)@ == old(buffer)@ + encode_limit(limit),
{
    match limit {
        Some(value) => {
            buffer.push(1);
            let mut bytes = u64_to_le_bytes(value);
            buffer.append(&mut bytes);
            assert(buffer@ =~= old(buffer)@ + encode_limit(limit));
        },
        None => {
            buffer.push(0);
            assert(buffer@ =~= old(buffer)@ + encode_limit(limit));
        },
    }
}

/// Writes a small optional limit.
fn write_small_limit(buffer: &mut Vec<u8>, limit: Option<u32>)
    ensures
        final(buffer)@ == old(buffer)@ + encode_small_limit(limit),
{
    match limit {
        Some(value) => {
            buffer.push(1);
            let mut bytes = u64_to_le_bytes(value as u64);
            buffer.append(&mut bytes);
            assert(buffer@ =~= old(buffer)@ + encode_small_limit(limit));
        },
        None => {
            buffer.push(0);
            assert(buffer@ =~= old(buffer)@ + encode_small_limit(limit));
        },
    }
}

/// Writes a flag.
fn write_flag(buffer: &mut Vec<u8>, flag: bool)
    ensures
        final(buffer)@ == old(buffer)@ + encode_flag(flag),
{
    if flag {
        buffer.push(1);
    } else {
        buffer.push(0);
    }
    assert(buffer@ =~= old(buffer)@ + encode_flag(flag));
}

/// Writes a key.
fn write_key(buffer: &mut Vec<u8>, key: &FileStoreKey)
    ensures
        final(buffer)@ == old(buffer)@ + encode_key(*key),
{
    let mut head = u128_to_le_bytes(key.head);
    let mut tail = u128_to_le_bytes(key.tail);
    buffer.append(&mut head);
    buffer.append(&mut tail);
    assert(buffer@ =~= old(buffer)@ + encode_key(*key));
}

/// Writes limits.
fn write_limits(buffer: &mut Vec<u8>, limits: &ExecutionLimits)
    ensures
        final(buffer)@ == old(buffer)@ + encode_limits(*limits),
{
    let ghost start = buffer@;
    write_limit(buffer, limits.cpu_time);
    let ghost written = encode_limit(limits.cpu_time);
    write_limit(buffer, limits.sys_time);
    assert(buffer@ =~= start + (written + encode_limit(limits.sys_time)));
    let ghost written = written + encode_limit(limits.sys_time);
    write_limit(buffer, limits.wall_time);
    assert(buffer@ =~= start + (written + encode_limit(limits.wall_time)));
    let ghost written = written + encode_limit(limits.wall_time);
    write_limit(buffer, limits.memory);
    assert(buffer@ =~= start + (written + encode_limit(limits.memory)));
    let ghost written = written + encode_limit(limits.memory);
    write_small_limit(buffer, limits.nproc);
    assert(buffer@ =~= start + (written + encode_small_limit(limits.nproc)));
    let ghost written = written + encode_small_limit(limits.nproc);
    write_small_limit(buffer, limits.nofile);
    assert(buffer@ =~= start + (written + encode_small_limit(limits.nofile)));
    let ghost written = written + encode_small_limit(limits.nofile);
    write_limit(buffer, limits.fsize);
    assert(buffer@ =~= start + (written + encode_limit(limits.fsize)));
    let ghost written = written + encode_limit(limits.fsize);
    write_flag(buffer, limits.read_only);
    assert(buffer@ =~= start + (written + encode_flag(limits.read_only)));
    let ghost written = written + encode_flag(limits.read_only);
    write_flag(buffer, limits.mount_tmpfs);
    assert(buffer@ =~= start + (written + encode_flag(limits.mount_tmpfs)));
}

/// Computes the fingerprint of `execution`. `keys` holds the key of the
/// content of each of its dependencies, in the order of its dependencies.
pub fn fingerprint(execution: &Execution, keys: &Vec<FileStoreKey>) -> (print: Fingerprint)
    requires
        keys@.len() == execution.spec_dependencies().len(),
    ensures
        print == fingerprint_of(*execution, keys@),
{
    let mut buffer: Vec<u8> = Vec::new();
    match &execution.command {
        ExecutionCommand::System(name) => {
            buffer.push(0);
            write_text(&mut buffer, name.as_str());
        },
        ExecutionCommand::Local(path) => {
            buffer.push(1);
            write_text(&mut buffer, path.as_str());
        },
    }
    assert(buffer@ =~= encode_command(execution.command));
    write_length(&mut buffer, execution.args.len());
    let ghost head = buffer@;
    let mut i: usize = 0;
    while i < execution.args.len()
        invariant
            i <= execution.args@.len(),
            buffer@ == head + encode_args(execution.args@.take(i as int)),
        decreases execution.args@.len() - i,
    {
        write_text(&mut buffer, execution.args[i].as_str());
        proof {
            assert(execution.args@.take(i + 1).drop_last() =~= execution.args@.take(i as int));
            assert(buffer@ =~= head + encode_args(execution.args@.take(i + 1)));
        }
        i += 1;
    }
    assert(execution.args@.take(i as int) =~= execution.args@);
    write_limits(&mut buffer, &execution.limits);
    let first: usize = if execution.stdin.is_some() {
        buffer.push(1);
        write_key(&mut buffer, &keys[0]);
        1
    } else {
        buffer.push(0);
        0
    };
    write_length(&mut buffer, execution.inputs.len());
    let ghost head = buffer@;
    let ghost rest = input_keys(*execution, keys@);
    assert(head =~= encode_command(execution.command) + encode_length(execution.args@.len())
        + encode_args(execution.args@) + encode_limits(execution.limits) + encode_stdin(
        *execution,
        keys@,
    ) + encode_length(execution.inputs@.len()));
    let count = keys.len();
    let mut j: usize = 0;
    while j < execution.inputs.len()
        invariant
            j <= execution.inputs@.len(),
            first + execution.inputs@.len() == keys@.len(),
            keys@.len() == count,
            rest == keys@.skip(first as int),
            buffer@ == head + encode_inputs(execution.inputs@.take(j as int), rest.take(j as int)),
        decreases execution.inputs@.len() - j,
    {
        write_text(&mut buffer, execution.inputs[j].path.as_str());
        write_key(&mut buffer, &keys[first + j]);
        write_flag(&mut buffer, execution.inputs[j].executable);
        proof {
            let inputs = execution.inputs@.take(j + 1);
            assert(inputs.drop_last() =~= execution.inputs@.take(j as int));
            assert(rest.take(j + 1).take(inputs.len() - 1) =~= rest.take(j as int));
            assert(rest.take(j + 1)[j as int] == keys@[first + j]);
            assert(buffer@ =~= head + encode_inputs(inputs, rest.take(j + 1)));
        }
        j += 1;
    }
    proof {
        assert(execution.inputs@.take(j as int) =~= execution.inputs@);
        assert(rest.take(j as int) =~= rest);
        assert(buffer@ =~= description_of(*execution, keys@));
    }
    FileStoreKey::from_content(buffer.as_slice())
}

/// Executions that agree on the command, the arguments, the limits, the
/// paths and flags of the inputs and the keys of the dependencies have the
/// same fingerprint, whatever their identifiers and those of their files.
pub proof fn law_fingerprint_ignores_identifiers(
    first: Execution,
    second: Execution,
    keys: Seq<FileStoreKey>,
)
    requires
        first.command == second.command,
        first.args == second.args,
        first.limits == second.limits,
        first.stdin is Some == second.stdin is Some,
        first.inputs@.len() == second.inputs@.len(),
        forall|i: int|
            0 <= i < first.inputs@.len() ==> (#[trigger] first.inputs@[i]).path == second.inputs@[i].path
                && first.inputs@[i].executable == second.inputs@[i].executable,
    ensures
        fingerprint_of(first, keys) == fingerprint_of(second, keys),
{
    lemma_encode_inputs(first.inputs@, second.inputs@, input_keys(first, keys));
}

/// Inputs that agree on paths and flags are written alike.
proof fn lemma_encode_inputs(
    first: Seq<ExecutionInput>,
    second: Seq<ExecutionInput>,
    keys: Seq<FileStoreKey>,
)
    requires
        first.len() == second.len(),
        forall|i: int|
            0 <= i < first.len() ==> (#[trigger] first[i]).path == second[i].path
                && first[i].executable == second[i].executable,
    ensures
        encode_inputs(first, keys) == encode_inputs(second, keys),
    decreases first.len(),
{
    if first.len() > 0 {
        assert(first.last().path == second.last().path) by {
            assert(first[first.len() - 1].path == second[first.len() - 1].path);
        }
        assert forall|i: int| 0 <= i < first.drop_last().len() implies (
        #[trigger] first.drop_last()[i]).path == second.drop_last()[i].path
            && first.drop_last()[i].executable == second.drop_last()[i].executable by {
            assert(first[i].path == second[i].path);
        }
        lemma_encode_inputs(first.drop_last(), second.drop_last(), keys.take(first.len() - 1));
    }
}

} // verus!
