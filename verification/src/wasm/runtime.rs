//! The runtime that every module carries.
//!
//! Every heap block is `[drop_idx: i32][refcount: i32][payload...]` and object
//! pointers address the payload, so the header lives at negative offsets.
//! Blocks are 8-aligned and their total size (header included) is a multiple of
//! 8; `$free` takes that total. A free block reuses its first two words as
//! `[size][next]` on a single first-fit, splitting free list.
//!
//! `$rc_retain` and `$rc_release` ignore pointers below the heap (static string
//! literals). At refcount zero, `$rc_release` dispatches the block's drop
//! function through the function table, which releases the children and calls
//! `$free` with the computed total size.

use vstd::prelude::*;

use crate::strings::{decimal, push_wide};

verus! {

/// Equality and order of strings: over bytes, i.e. code-point order.
pub const STRING_ORDER: &'static str = "  (func $string_eq (param $a i32) (param $b i32) (result i32)
    (local $la i32) (local $lb i32) (local $i i32)
    local.get $a i32.load local.set $la
    local.get $b i32.load local.set $lb
    local.get $la local.get $lb i32.ne
    if i32.const 0 return end
    i32.const 0 local.set $i
    block $done
      loop $loop
        local.get $i local.get $la i32.ge_s br_if $done
        local.get $a i32.const 4 i32.add local.get $i i32.add i32.load8_u
        local.get $b i32.const 4 i32.add local.get $i i32.add i32.load8_u
        i32.ne
        if i32.const 0 return end
        local.get $i i32.const 1 i32.add local.set $i
        br $loop
      end
    end
    i32.const 1)
  (func $string_lt (param $a i32) (param $b i32) (result i32)
    (local $la i32) (local $lb i32) (local $i i32) (local $n i32) (local $ca i32) (local $cb i32)
    local.get $a i32.load local.set $la
    local.get $b i32.load local.set $lb
    local.get $la local.get $lb i32.lt_s
    if (result i32) local.get $la else local.get $lb end
    local.set $n
    i32.const 0 local.set $i
    block $done
      loop $loop
        local.get $i local.get $n i32.ge_s br_if $done
        local.get $a i32.const 4 i32.add local.get $i i32.add i32.load8_u local.set $ca
        local.get $b i32.const 4 i32.add local.get $i i32.add i32.load8_u local.set $cb
        local.get $ca local.get $cb i32.lt_u
        if i32.const 1 return end
        local.get $ca local.get $cb i32.gt_u
        if i32.const 0 return end
        local.get $i i32.const 1 i32.add local.set $i
        br $loop
      end
    end
    local.get $la local.get $lb i32.lt_s)
";

pub const STRING_INDEX_0: &'static str = "  (func $utf8_seqlen (param $b i32) (result i32)
    local.get $b i32.const 240 i32.ge_u if i32.const 4 return end
    local.get $b i32.const 224 i32.ge_u if i32.const 3 return end
    local.get $b i32.const 192 i32.ge_u if i32.const 2 return end
    i32.const 1)
  (func $string_length (param $s i32) (result i32)
    (local $len i32) (local $i i32) (local $count i32)
    local.get $s i32.load local.set $len
    i32.const 0 local.set $i
    i32.const 0 local.set $count
    block $done
      loop $loop
        local.get $i local.get $len i32.ge_s br_if $done
        local.get $s i32.const 4 i32.add local.get $i i32.add i32.load8_u
        i32.const 192 i32.and i32.const 128 i32.ne
        if local.get $count i32.const 1 i32.add local.set $count end
        local.get $i i32.const 1 i32.add local.set $i
        br $loop
      end
    end
    local.get $count)
  (func $string_byte_offset (param $s i32) (param $k i32) (result i32)
    (local $base i32) (local $p i32)
    local.get $s i32.const 4 i32.add local.set $base
    i32.const 0 local.set $p
    block $done
      loop $loop
        local.get $k i32.const 0 i32.le_s br_if $done
        local.get $base local.get $p i32.add i32.load8_u call $utf8_seqlen
        local.get $p i32.add local.set $p
        local.get $k i32.const 1 i32.sub local.set $k
        br $loop
      end
    end
    local.get $p)
  (func $string_char_at (param $s i32) (param $idx i32) (result i32)
    (local $base i32) (local $p i32) (local $b i32) (local $n i32) (local $cp i32) (local $j i32)
    local.get $s i32.const 4 i32.add local.set $base
    local.get $s local.get $idx call $string_byte_offset local.set $p
    local.get $base local.get $p i32.add i32.load8_u local.set $b
    local.get $b call $utf8_seqlen local.set $n
    local.get $n i32.const 1 i32.eq
    if local.get $b return end
    local.get $b i32.const 127 local.get $n i32.shr_u i32.and local.set $cp
    i32.const 1 local.set $j
    block $done
      loop $loop
        local.get $j local.get $n i32.ge_s br_if $done
        local.get $cp i32.const 6 i32.shl
        local.get $base local.get $p i32.add local.get $j i32.add i32.load8_u i32.const 63 i32.and
        i32.or
        local.set $cp
        local.get $j i32.const 1 i32.add local.set $j
        br $loop
      end
    end
    local.get $cp)
  (func $string_slice (param $s i32) (param $start i32) (param $end i32) (result i32)
    (local $len i32) (local $sb i32) (local $eb i32) (local $n i32) (local $out i32)
    local.get $s call $string_length local.set $len
    local.get $start i32.const 0 i32.lt_s if i32.const 0 local.set $start end
    local.get $start local.get $len i32.gt_s if local.get $len local.set $start end
    local.get $end i32.const 0 i32.lt_s if i32.const 0 local.set $end end
    local.get $end local.get $len i32.gt_s if local.get $len local.set $end end
    local.get $start local.get $end i32.ge_s
    if
      i32.const 4 i32.const ";

pub const STRING_INDEX_1: &'static str = " call $alloc local.set $out
      local.get $out i32.const 0 i32.store
      local.get $out return
    end
    local.get $s local.get $start call $string_byte_offset local.set $sb
    local.get $s local.get $end call $string_byte_offset local.set $eb
    local.get $eb local.get $sb i32.sub local.set $n
    i32.const 4 local.get $n i32.add i32.const ";

pub const STRING_INDEX_2: &'static str = " call $alloc local.set $out
    local.get $out local.get $n i32.store
    local.get $out i32.const 4 i32.add
    local.get $s i32.const 4 i32.add local.get $sb i32.add
    local.get $n
    memory.copy
    local.get $out)
  (func $string_from_char (param $code i32) (result i32)
    (local $out i32)
    local.get $code i32.const 128 i32.lt_u
    if
      i32.const 5 i32.const ";

pub const STRING_INDEX_3: &'static str = " call $alloc local.set $out
      local.get $out i32.const 1 i32.store
      local.get $out i32.const 4 i32.add local.get $code i32.store8
      local.get $out return
    end
    local.get $code i32.const 2048 i32.lt_u
    if
      i32.const 6 i32.const ";

pub const STRING_INDEX_4: &'static str = " call $alloc local.set $out
      local.get $out i32.const 2 i32.store
      local.get $out i32.const 4 i32.add
        local.get $code i32.const 6 i32.shr_u i32.const 192 i32.or i32.store8
      local.get $out i32.const 5 i32.add
        local.get $code i32.const 63 i32.and i32.const 128 i32.or i32.store8
      local.get $out return
    end
    local.get $code i32.const 65536 i32.lt_u
    if
      i32.const 7 i32.const ";

pub const STRING_INDEX_5: &'static str = " call $alloc local.set $out
      local.get $out i32.const 3 i32.store
      local.get $out i32.const 4 i32.add
        local.get $code i32.const 12 i32.shr_u i32.const 224 i32.or i32.store8
      local.get $out i32.const 5 i32.add
        local.get $code i32.const 6 i32.shr_u i32.const 63 i32.and i32.const 128 i32.or i32.store8
      local.get $out i32.const 6 i32.add
        local.get $code i32.const 63 i32.and i32.const 128 i32.or i32.store8
      local.get $out return
    end
    i32.const 8 i32.const ";

pub const STRING_INDEX_6: &'static str = " call $alloc local.set $out
    local.get $out i32.const 4 i32.store
    local.get $out i32.const 4 i32.add
      local.get $code i32.const 18 i32.shr_u i32.const 240 i32.or i32.store8
    local.get $out i32.const 5 i32.add
      local.get $code i32.const 12 i32.shr_u i32.const 63 i32.and i32.const 128 i32.or i32.store8
    local.get $out i32.const 6 i32.add
      local.get $code i32.const 6 i32.shr_u i32.const 63 i32.and i32.const 128 i32.or i32.store8
    local.get $out i32.const 7 i32.add
      local.get $code i32.const 63 i32.and i32.const 128 i32.or i32.store8
    local.get $out)
";

/// The helpers that count, index and slice strings in Unicode scalars, and
/// build a string of one, with the drop index of strings stamped into their
/// allocations.
pub open spec fn string_runtime(out: Seq<char>, drop: nat) -> Seq<char> {
    out + STRING_INDEX_0@ + decimal(drop) + STRING_INDEX_1@ + decimal(drop) + STRING_INDEX_2@ + decimal(drop) + STRING_INDEX_3@ + decimal(drop) + STRING_INDEX_4@ + decimal(drop) + STRING_INDEX_5@ + decimal(drop) + STRING_INDEX_6@
}

/// The helpers that count, index and slice strings in Unicode scalars, and
/// build a string of one, with the drop index of strings stamped into their
/// allocations.
pub fn push_string_runtime(out: &mut String, drop: u128)
    ensures
        final(out)@ == string_runtime(old(out)@, drop as nat),
{
    out.push_str(STRING_INDEX_0);
    push_wide(out, drop);
    out.push_str(STRING_INDEX_1);
    push_wide(out, drop);
    out.push_str(STRING_INDEX_2);
    push_wide(out, drop);
    out.push_str(STRING_INDEX_3);
    push_wide(out, drop);
    out.push_str(STRING_INDEX_4);
    push_wide(out, drop);
    out.push_str(STRING_INDEX_5);
    push_wide(out, drop);
    out.push_str(STRING_INDEX_6);
}

pub const BYTES_0: &'static str = "  (func $bytes_slice (param $s i32) (param $start i32) (param $end i32) (result i32)
    (local $len i32) (local $n i32) (local $out i32)
    local.get $s i32.load local.set $len
    local.get $start i32.const 0 i32.lt_s if i32.const 0 local.set $start end
    local.get $start local.get $len i32.gt_s if local.get $len local.set $start end
    local.get $end i32.const 0 i32.lt_s if i32.const 0 local.set $end end
    local.get $end local.get $len i32.gt_s if local.get $len local.set $end end
    local.get $start local.get $end i32.ge_s
    if
      i32.const 4 i32.const ";

pub const BYTES_1: &'static str = " call $alloc local.set $out
      local.get $out i32.const 0 i32.store
      local.get $out return
    end
    local.get $end local.get $start i32.sub local.set $n
    i32.const 4 local.get $n i32.add i32.const ";

pub const BYTES_2: &'static str = " call $alloc local.set $out
    local.get $out local.get $n i32.store
    local.get $out i32.const 4 i32.add
    local.get $s i32.const 4 i32.add local.get $start i32.add
    local.get $n
    memory.copy
    local.get $out)
  (func $blob_dup (param $s i32) (result i32)
    (local $len i32) (local $out i32)
    local.get $s i32.load local.set $len
    i32.const 4 local.get $len i32.add i32.const ";

pub const BYTES_3: &'static str = " call $alloc local.set $out
    local.get $out local.get $len i32.store
    local.get $out i32.const 4 i32.add
    local.get $s i32.const 4 i32.add
    local.get $len
    memory.copy
    local.get $out)
";

/// The byte-unit slice and the copy of a blob, with the drop index of strings
/// stamped into their allocations.
pub open spec fn bytes_runtime(out: Seq<char>, drop: nat) -> Seq<char> {
    out + BYTES_0@ + decimal(drop) + BYTES_1@ + decimal(drop) + BYTES_2@ + decimal(drop) + BYTES_3@
}

/// The byte-unit slice and the copy of a blob, with the drop index of strings
/// stamped into their allocations.
pub fn push_bytes_runtime(out: &mut String, drop: u128)
    ensures
        final(out)@ == bytes_runtime(old(out)@, drop as nat),
{
    out.push_str(BYTES_0);
    push_wide(out, drop);
    out.push_str(BYTES_1);
    push_wide(out, drop);
    out.push_str(BYTES_2);
    push_wide(out, drop);
    out.push_str(BYTES_3);
}

pub const MEMORY_0: &'static str = "  (func $alloc (param $n i32) (param $drop i32) (result i32)
    (local $total i32) (local $prev i32) (local $cur i32) (local $sz i32) (local $rest i32) (local $p i32) (local $end i32)
    local.get $n i32.const 15 i32.add i32.const -8 i32.and local.set $total
    i32.const 0 local.set $prev
    global.get $free_list local.set $cur
    block $miss
      loop $scan
        local.get $cur i32.eqz br_if $miss
        local.get $cur i32.load local.set $sz
        local.get $sz local.get $total i32.ge_u
        if
          local.get $sz local.get $total i32.sub local.set $rest
          local.get $rest i32.const 8 i32.ge_u
          if
            local.get $cur local.get $total i32.add local.set $p
            local.get $p local.get $rest i32.store
            local.get $p local.get $cur i32.load offset=4 i32.store offset=4
            local.get $prev
            if
              local.get $prev local.get $p i32.store offset=4
            else
              local.get $p global.set $free_list
            end
          else
            local.get $prev
            if
              local.get $prev local.get $cur i32.load offset=4 i32.store offset=4
            else
              local.get $cur i32.load offset=4 global.set $free_list
            end
          end
          local.get $cur local.get $drop i32.store
          local.get $cur i32.const 1 i32.store offset=4
          global.get $live local.get $total i32.add global.set $live
          local.get $cur i32.const 8 i32.add
          return
        end
        local.get $cur local.set $prev
        local.get $cur i32.load offset=4 local.set $cur
        br $scan
      end
    end
    global.get $heap i32.const 7 i32.add i32.const -8 i32.and local.set $p
    local.get $p local.get $total i32.add local.set $end
    local.get $end memory.size i32.const 16 i32.shl i32.gt_u
    if
      local.get $end memory.size i32.const 16 i32.shl i32.sub
      i32.const 65535 i32.add i32.const 16 i32.shr_u
      memory.grow
      i32.const -1 i32.eq
      if unreachable end
    end
    local.get $end global.set $heap
    local.get $p local.get $drop i32.store
    local.get $p i32.const 1 i32.store offset=4
    global.get $live local.get $total i32.add global.set $live
    local.get $p i32.const 8 i32.add)
  (func $alloc_host (param $n i32) (result i32)
    local.get $n
    i32.const ";

pub const MEMORY_1: &'static str = "
    call $alloc)
  (func $free (param $p i32) (param $size i32)
    (local $blk i32)
    local.get $p i32.const 8 i32.sub local.set $blk
    local.get $blk local.get $size i32.store
    local.get $blk global.get $free_list i32.store offset=4
    local.get $blk global.set $free_list
    global.get $live local.get $size i32.sub global.set $live)
  (func $rc_retain (param $p i32) (result i32)
    local.get $p i32.const ";

pub const MEMORY_2: &'static str = " i32.lt_u
    if local.get $p return end
    local.get $p i32.const 4 i32.sub
    local.get $p i32.const 4 i32.sub i32.load
    i32.const 1 i32.add
    i32.store
    local.get $p)
  (func $rc_release (param $p i32)
    (local $rc i32)
    local.get $p i32.const ";

pub const MEMORY_3: &'static str = " i32.lt_u
    if return end
    local.get $p i32.const 4 i32.sub i32.load i32.const 1 i32.sub local.set $rc
    local.get $rc
    if
      local.get $p i32.const 4 i32.sub local.get $rc i32.store
      return
    end
    local.get $p
    local.get $p i32.const 8 i32.sub i32.load
    call_indirect (type $drop_t))
";

/// The allocator and the reference counts. `heap_base` is where the heap
/// starts; `leak` is the drop index of blocks that only the host knows the
/// shape of.
pub open spec fn memory_runtime(out: Seq<char>, heap_base: nat, leak: nat) -> Seq<char> {
    out + MEMORY_0@ + decimal(leak) + MEMORY_1@ + decimal(heap_base) + MEMORY_2@ + decimal(heap_base) + MEMORY_3@
}

/// The allocator and the reference counts.
pub fn push_memory_runtime(out: &mut String, heap_base: u128, leak: u128)
    ensures
        final(out)@ == memory_runtime(old(out)@, heap_base as nat, leak as nat),
{
    out.push_str(MEMORY_0);
    push_wide(out, leak);
    out.push_str(MEMORY_1);
    push_wide(out, heap_base);
    out.push_str(MEMORY_2);
    push_wide(out, heap_base);
    out.push_str(MEMORY_3);
}

} // verus!
