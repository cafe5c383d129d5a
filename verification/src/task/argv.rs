//! The arguments of a program on its user stack.
//!
//! Below the top of the stack lies the array of argument pointers, ended by a null pointer.
//! Below the array lie the strings, the first argument highest, each ended by a zero byte.

use crate::mm::{StoreSpec, UserWrite};
use crate::word::to_word_bytes;
use vstd::prelude::*;

verus! {

/// The bytes of each argument.
pub open spec fn arg_bytes(args: Seq<String>) -> Seq<Seq<u8>> {
    args.map_values(|arg: String| vstd::utf8::encode_utf8(arg@))
}

/// The bytes that the first `n` strings take with their zero bytes.
pub open spec fn strings_size(args: Seq<Seq<u8>>, n: int) -> int
    decreases n,
{
    if n <= 0 {
        0
    } else {
        strings_size(args, n - 1) + args[n - 1].len() + 1
    }
}

/// The bytes of the array of pointers with the null pointer at its end.
pub open spec fn array_size(count: int) -> int {
    (count + 1) * crate::word::word_size()
}

/// The address of the array.
pub open spec fn array_addr(top: int, args: Seq<Seq<u8>>) -> int {
    top - array_size(args.len() as int)
}

/// The address of the pointer to string `i`.
pub open spec fn slot_addr(top: int, args: Seq<Seq<u8>>, i: int) -> int {
    array_addr(top, args) + i * crate::word::word_size()
}

/// The address of string `i`.
pub open spec fn string_addr(top: int, args: Seq<Seq<u8>>, i: int) -> int {
    array_addr(top, args) - strings_size(args, i + 1)
}

/// The lowest address in use once `n` strings are stored.
pub open spec fn strings_end(top: int, args: Seq<Seq<u8>>, n: int) -> int {
    array_addr(top, args) - strings_size(args, n)
}

/// The stack pointer that the program starts with: below all strings, and aligned.
pub open spec fn initial_sp(top: int, args: Seq<Seq<u8>>) -> int {
    let end = strings_end(top, args, args.len() as int);
    end - end % crate::word::word_size() as int
}

/// Everything fits between address zero and the top of the stack.
pub open spec fn args_fit(top: int, args: Seq<Seq<u8>>) -> bool {
    strings_end(top, args, args.len() as int) >= 0
}

/// What is stored for the first `n` arguments, the null pointer first.
pub open spec fn argv_stores(token: usize, top: int, args: Seq<Seq<u8>>, n: int) -> Seq<StoreSpec>
    decreases n,
{
    if n <= 0 {
        seq![
            StoreSpec {
                token,
                addr: slot_addr(top, args, args.len() as int),
                bytes: crate::word::word_bytes(0),
            },
        ]
    } else {
        argv_stores(token, top, args, n - 1).push(
            StoreSpec {
                token,
                addr: slot_addr(top, args, n - 1),
                bytes: crate::word::word_bytes(string_addr(top, args, n - 1) as usize),
            },
        ).push(
            StoreSpec { token, addr: string_addr(top, args, n - 1), bytes: args[n - 1].push(0) },
        )
    }
}

/// Where the arguments of a program were put.
pub struct ArgvLayout {
    /// What is to be stored in the user's address space, in this order.
    pub writes: Vec<UserWrite>,
    /// The address of the array of pointers.
    pub argv_base: usize,
    /// The stack pointer.
    pub user_sp: usize,
}

/// The views of a list of stores.
pub open spec fn stores_of(writes: Seq<UserWrite>) -> Seq<StoreSpec> {
    writes.map_values(|w: UserWrite| w@)
}

/// The strings grow with their number.
proof fn lemma_strings_size(args: Seq<Seq<u8>>, m: int, n: int)
    requires
        0 <= m <= n <= args.len(),
    ensures
        0 <= strings_size(args, m) <= strings_size(args, n),
    decreases n,
{
    if m < n {
        lemma_strings_size(args, m, n - 1);
    } else if n > 0 {
        lemma_strings_size(args, n - 1, n - 1);
    }
}

/// Whether the arguments fit below `ustack_top`.
pub fn args_have_room(ustack_top: usize, args: &Vec<String>) -> (fits: bool)
    ensures
        fits == args_fit(ustack_top as int, arg_bytes(args@)),
{
    let ghost top = ustack_top as int;
    let ghost texts = arg_bytes(args@);
    let size: usize = core::mem::size_of::<usize>();
    let count: usize = args.len();
    proof {
        lemma_strings_size(texts, 0, count as int);
    }
    if count == usize::MAX {
        proof {
            broadcast use vstd::layout::layout_of_primitives;

            assert(count + 1 <= (count + 1) * size) by (nonlinear_arith)
                requires
                    size >= 1,
            ;
        }
        return false;
    }
    let array: usize = match (count + 1).checked_mul(size) {
        Some(array) => array,
        None => return false,
    };
    let mut room: usize = match ustack_top.checked_sub(array) {
        Some(room) => room,
        None => return false,
    };
    let mut i: usize = 0;
    while i < count
        invariant
            i <= count,
            count == args@.len(),
            texts == arg_bytes(args@),
            top == ustack_top,
            room == strings_end(top, texts, i as int),
        decreases count - i,
    {
        let len: usize = args[i].as_str().as_bytes().len();
        assert(len == texts[i as int].len());
        proof {
            lemma_strings_size(texts, i + 1, count as int);
        }
        if room <= len {
            return false;
        }
        room = room - len - 1;
        i += 1;
    }
    true
}

/// Lays the arguments out below `ustack_top` in the address space of `token`.
pub fn push_args(token: usize, ustack_top: usize, args: &Vec<String>) -> (layout: ArgvLayout)
    requires
        args_fit(ustack_top as int, arg_bytes(args@)),
    ensures
        layout.argv_base == array_addr(ustack_top as int, arg_bytes(args@)),
        layout.user_sp == initial_sp(ustack_top as int, arg_bytes(args@)),
        stores_of(layout.writes@) == argv_stores(
            token,
            ustack_top as int,
            arg_bytes(args@),
            args@.len() as int,
        ),
{
    let ghost top = ustack_top as int;
    let ghost texts = arg_bytes(args@);
    let size: usize = core::mem::size_of::<usize>();
    let count: usize = args.len();
    proof {
        broadcast use vstd::layout::layout_of_primitives;

        lemma_strings_size(texts, 0, count as int);
        assert(count + 1 <= (count + 1) * size) by (nonlinear_arith)
            requires
                size >= 1,
                count >= 0,
        ;
        assert(count * size <= (count + 1) * size) by (nonlinear_arith)
            requires
                size >= 1,
        ;
    }
    let mut user_sp: usize = ustack_top - (count + 1) * size;
    let argv_base: usize = user_sp;
    assert((count + 1) * size == count * size + size) by (nonlinear_arith);
    let mut writes: Vec<UserWrite> = Vec::new();
    writes.push(UserWrite { token, addr: argv_base + count * size, bytes: to_word_bytes(0) });
    assert(stores_of(writes@) =~= argv_stores(token, top, texts, 0));
    let mut i: usize = 0;
    while i < count
        invariant
            i <= count,
            count == args@.len(),
            texts == arg_bytes(args@),
            size == crate::word::word_size(),
            size >= 1,
            top == ustack_top,
            args_fit(top, texts),
            argv_base == array_addr(top, texts),
            user_sp == strings_end(top, texts, i as int),
            stores_of(writes@) == argv_stores(token, top, texts, i as int),
        decreases count - i,
    {
        let text = args[i].as_str().as_bytes();
        assert(text@ == texts[i as int]);
        proof {
            lemma_strings_size(texts, i + 1, count as int);
            assert(i * size <= (count + 1) * size) by (nonlinear_arith)
                requires
                    i <= count,
                    size >= 1,
            ;
        }
        user_sp = user_sp - (text.len() + 1);
        let ghost before = writes@;
        writes.push(UserWrite { token, addr: argv_base + i * size, bytes: to_word_bytes(user_sp) });
        let mut bytes: Vec<u8> = Vec::new();
        let mut k: usize = 0;
        while k < text.len()
            invariant
                k <= text@.len(),
                bytes@ == text@.take(k as int),
            decreases text@.len() - k,
        {
            bytes.push(text[k]);
            k += 1;
        }
        bytes.push(0);
        assert(bytes@ =~= texts[i as int].push(0));
        writes.push(UserWrite { token, addr: user_sp, bytes });
        i += 1;
        assert(stores_of(writes@) =~= argv_stores(token, top, texts, i as int)) by {
            assert(stores_of(writes@).take(before.len() as int) =~= stores_of(before));
        }
    }
    user_sp = user_sp - user_sp % size;
    ArgvLayout { writes, argv_base, user_sp }
}

/// A store beside some bytes leaves them alone.
proof fn lemma_store_beside(mem: spec_fn(int) -> u8, w: StoreSpec, addr: int, bytes: Seq<u8>)
    requires
        crate::mm::holds(mem, addr, bytes),
        addr + bytes.len() <= w.addr || w.addr + w.bytes.len() <= addr,
    ensures
        crate::mm::holds(crate::mm::store(mem, w), addr, bytes),
{
}

/// The last store is done last.
proof fn lemma_store_push(mem: spec_fn(int) -> u8, ws: Seq<StoreSpec>, w: StoreSpec)
    ensures
        crate::mm::store_all(mem, ws.push(w)) == crate::mm::store(
            crate::mm::store_all(mem, ws),
            w,
        ),
{
    assert(ws.push(w).drop_last() =~= ws);
}

/// Slots of the array do not overlap, and lie between its ends.
proof fn lemma_slots_apart(top: int, args: Seq<Seq<u8>>, i: int, j: int)
    requires
        0 <= i <= args.len(),
        0 <= j <= args.len(),
    ensures
        array_addr(top, args) <= slot_addr(top, args, i),
        slot_addr(top, args, i) + crate::word::word_size() <= top,
        i < j ==> slot_addr(top, args, i) + crate::word::word_size() <= slot_addr(top, args, j),
{
    let size = crate::word::word_size() as int;
    let count = args.len() as int;
    assert(0 <= i * size && i * size + size <= (count + 1) * size) by (nonlinear_arith)
        requires
            0 <= i <= count,
            size >= 0,
    ;
    if i < j {
        assert(i * size + size <= j * size) by (nonlinear_arith)
            requires
                i + 1 <= j,
                size >= 0,
        ;
    }
}

/// The first `n` arguments stand in memory once their stores are done.
proof fn lemma_argv_stored(
    mem: spec_fn(int) -> u8,
    token: usize,
    top: int,
    args: Seq<Seq<u8>>,
    n: int,
)
    requires
        0 <= n <= args.len(),
    ensures
        ({
            let after = crate::mm::store_all(mem, argv_stores(token, top, args, n));
            &&& crate::mm::holds(
                after,
                slot_addr(top, args, args.len() as int),
                crate::word::word_bytes(0),
            )
            &&& forall|i: int|
                0 <= i < n ==> crate::mm::holds(
                    after,
                    slot_addr(top, args, i),
                    crate::word::word_bytes(#[trigger] string_addr(top, args, i) as usize),
                )
            &&& forall|i: int|
                0 <= i < n ==> crate::mm::holds(
                    after,
                    #[trigger] string_addr(top, args, i),
                    args[i].push(0),
                )
            &&& forall|a: int|
                !(strings_end(top, args, n) <= a < top) ==> #[trigger] after(a) == mem(a)
        }),
    decreases n,
{
    let count = args.len() as int;
    let stores = argv_stores(token, top, args, n);
    let after = crate::mm::store_all(mem, stores);
    crate::word::law_word_round_trip(0);
    lemma_slots_apart(top, args, count, count);
    if n == 0 {
        assert(stores.drop_last() =~= Seq::<StoreSpec>::empty());
        assert(crate::mm::store_all(mem, stores.drop_last()) == mem);
    } else {
        let last = n - 1;
        let word = string_addr(top, args, last) as usize;
        let before = crate::mm::store_all(mem, argv_stores(token, top, args, last));
        let pointer = StoreSpec {
            token,
            addr: slot_addr(top, args, last),
            bytes: crate::word::word_bytes(word),
        };
        let text = StoreSpec { token, addr: string_addr(top, args, last), bytes: args[last].push(0) };
        let between = crate::mm::store(before, pointer);
        lemma_store_push(mem, argv_stores(token, top, args, last), pointer);
        lemma_store_push(mem, argv_stores(token, top, args, last).push(pointer), text);
        lemma_argv_stored(mem, token, top, args, last);
        crate::word::law_word_round_trip(word);
        lemma_strings_size(args, last, n);
        lemma_slots_apart(top, args, last, count);
        assert(text.addr + text.bytes.len() == strings_end(top, args, last));
        assert(text.addr == strings_end(top, args, n));
        lemma_store_beside(before, pointer, slot_addr(top, args, count), crate::word::word_bytes(0));
        lemma_store_beside(between, text, slot_addr(top, args, count), crate::word::word_bytes(0));
        assert(crate::mm::holds(between, pointer.addr, pointer.bytes));
        lemma_store_beside(between, text, pointer.addr, pointer.bytes);
        assert forall|i: int| 0 <= i < n implies crate::mm::holds(
            after,
            slot_addr(top, args, i),
            crate::word::word_bytes(#[trigger] string_addr(top, args, i) as usize),
        ) by {
            if i < last {
                let bytes = crate::word::word_bytes(string_addr(top, args, i) as usize);
                crate::word::law_word_round_trip(string_addr(top, args, i) as usize);
                lemma_slots_apart(top, args, i, last);
                lemma_store_beside(before, pointer, slot_addr(top, args, i), bytes);
                lemma_store_beside(between, text, slot_addr(top, args, i), bytes);
            }
        }
        assert forall|i: int| 0 <= i < n implies crate::mm::holds(
            after,
            #[trigger] string_addr(top, args, i),
            args[i].push(0),
        ) by {
            if i < last {
                lemma_strings_size(args, i, i + 1);
                lemma_strings_size(args, i + 1, last);
                lemma_store_beside(before, pointer, string_addr(top, args, i), args[i].push(0));
                lemma_store_beside(between, text, string_addr(top, args, i), args[i].push(0));
            }
        }
    }
}

/// Once the stores of [`push_args`] are done, the program finds its arguments: slot `i` of the
/// array points at string `i` with its zero byte, the array ends with a null pointer, the stack
/// pointer is aligned and lies at or below everything stored, and nothing outside the area
/// between it and the top of the stack has changed.
pub proof fn law_program_finds_arguments(
    mem: spec_fn(int) -> u8,
    token: usize,
    top: usize,
    args: Seq<Seq<u8>>,
)
    requires
        args_fit(top as int, args),
    ensures
        ({
            let after = crate::mm::store_all(
                mem,
                argv_stores(token, top as int, args, args.len() as int),
            );
            &&& forall|i: int|
                0 <= i < args.len() ==> {
                    let addr = #[trigger] string_addr(top as int, args, i);
                    &&& 0 <= addr <= top
                    &&& crate::mm::holds(
                        after,
                        slot_addr(top as int, args, i),
                        crate::word::word_bytes(addr as usize),
                    )
                    &&& crate::mm::holds(after, addr, args[i].push(0))
                }
            &&& crate::mm::holds(
                after,
                slot_addr(top as int, args, args.len() as int),
                crate::word::word_bytes(0),
            )
            &&& initial_sp(top as int, args) % crate::word::word_size() as int == 0
            &&& 0 <= initial_sp(top as int, args) <= top
            &&& forall|a: int|
                !(initial_sp(top as int, args) <= a < top) ==> #[trigger] after(a) == mem(a)
        }),
{
    broadcast use vstd::layout::layout_of_primitives;

    let count = args.len() as int;
    let size = crate::word::word_size() as int;
    let end = strings_end(top as int, args, count);
    lemma_argv_stored(mem, token, top as int, args, count);
    lemma_slots_apart(top as int, args, 0, 0);
    lemma_strings_size(args, 0, count);
    assert forall|i: int| 0 <= i < count implies 0 <= #[trigger] string_addr(top as int, args, i)
        <= top by {
        lemma_strings_size(args, i + 1, count);
    }
    assert(0 <= end % size <= end && (end - end % size) % size == 0) by (nonlinear_arith)
        requires
            end >= 0,
            size > 0,
    ;
}

/// The room that arguments take: a word for each and one more, and the bytes of each with one more.
pub proof fn law_room_for_arguments(top: usize, args: Seq<String>)
    ensures
        args_fit(top as int, arg_bytes(args)) <==> (args.len() + 1) * vstd::layout::size_of::<usize>()
            + args.fold_left(
            0int,
            |sum: int, arg: String| sum + vstd::utf8::encode_utf8(arg@).len() + 1,
        ) <= top,
{
    lemma_strings_fold(args, args.len() as int);
    assert(args.take(args.len() as int) =~= args);
}

proof fn lemma_strings_fold(args: Seq<String>, n: int)
    requires
        0 <= n <= args.len(),
    ensures
        strings_size(arg_bytes(args), n) == args.take(n).fold_left(
            0int,
            |sum: int, arg: String| sum + vstd::utf8::encode_utf8(arg@).len() + 1,
        ),
    decreases n,
{
    if n > 0 {
        lemma_strings_fold(args, n - 1);
        assert(args.take(n).drop_last() =~= args.take(n - 1));
    }
}

/// Every store of the arguments goes into one address space: the null pointer, and for each
/// argument a pointer and a string.
pub proof fn law_stores_of_arguments(token: usize, top: int, args: Seq<Seq<u8>>, n: int)
    requires
        0 <= n,
    ensures
        argv_stores(token, top, args, n).len() == 2 * n + 1,
        forall|k: int|
            0 <= k < argv_stores(token, top, args, n).len() ==> (#[trigger] argv_stores(
                token,
                top,
                args,
                n,
            )[k]).token == token,
    decreases n,
{
    if n > 0 {
        law_stores_of_arguments(token, top, args, n - 1);
    }
}

/// The stores that are stated of a list of writes are those writes.
pub proof fn law_writes_are_the_stores(writes: Seq<UserWrite>)
    ensures
        stores_of(writes).len() == writes.len(),
        forall|k: int|
            0 <= k < writes.len() ==> {
                &&& (#[trigger] stores_of(writes)[k]).token == writes[k].token
                &&& stores_of(writes)[k].addr == writes[k].addr
                &&& stores_of(writes)[k].bytes == writes[k].bytes@
            },
{
}

/// A program reads its arguments as they were given: once the stores are done, the word in slot `i`
/// of the array is an address at which the whole UTF-8 text of argument `i` stands, followed by a
/// zero byte. The first text ends where the array begins, and each other one where the text before
/// it begins. The word after the last slot is zero. The stack pointer is the last multiple of the
/// word size that is not above the texts. Other memory is as it was.
pub proof fn law_program_reads_its_arguments(
    mem: spec_fn(int) -> u8,
    token: usize,
    top: usize,
    args: Seq<String>,
)
    requires
        args_fit(top as int, arg_bytes(args)),
    ensures
        ({
            let word = vstd::layout::size_of::<usize>() as int;
            let after = crate::mm::store_all(
                mem,
                argv_stores(token, top as int, arg_bytes(args), args.len() as int),
            );
            let base = top - (args.len() + 1) * word;
            let slot = |i: int|
                crate::word::le_value(Seq::new(word as nat, |k: int| after(base + i * word + k)));
            let sp = initial_sp(top as int, arg_bytes(args));
            &&& array_addr(top as int, arg_bytes(args)) == base
            &&& forall|i: int|
                0 <= i < args.len() ==> {
                    let text = vstd::utf8::encode_utf8((#[trigger] args[i])@);
                    let read = Seq::new((text.len() + 1) as nat, |k: int| after(slot(i) + k));
                    &&& read == text.push(0)
                    &&& vstd::utf8::decode_utf8(read.drop_last()) == args[i]@
                    &&& slot(i) + text.len() + 1 == if i == 0 {
                        base
                    } else {
                        slot(i - 1)
                    }
                    &&& sp <= slot(i)
                }
            &&& slot(args.len() as int) == 0
            &&& 0 <= sp
            &&& sp % word == 0
            &&& (if args.len() == 0 {
                base
            } else {
                slot(args.len() - 1)
            }) - word < sp
            &&& forall|a: int| !(sp <= a < top) ==> #[trigger] after(a) == mem(a)
        }),
{
    broadcast use vstd::layout::layout_of_primitives;

    let word = vstd::layout::size_of::<usize>() as int;
    let texts = arg_bytes(args);
    let n = args.len() as int;
    let after = crate::mm::store_all(mem, argv_stores(token, top as int, texts, n));
    let base = top - (args.len() + 1) * word;
    let slot = |i: int|
        crate::word::le_value(Seq::new(word as nat, |k: int| after(base + i * word + k)));
    let sp = initial_sp(top as int, texts);
    let end = strings_end(top as int, texts, n);
    law_program_finds_arguments(mem, token, top, texts);
    assert(0 <= end % word < word) by (nonlinear_arith)
        requires
            word > 0,
    ;
    assert forall|i: int| 0 <= i < n implies slot(i) == #[trigger] string_addr(
        top as int,
        texts,
        i,
    ) by {
        let p = string_addr(top as int, texts, i) as usize;
        let bytes = crate::word::word_bytes(p);
        crate::word::law_word_round_trip(p);
        crate::mm::law_held_bytes_are_read(after, slot_addr(top as int, texts, i), bytes);
        assert(Seq::new(word as nat, |k: int| after(base + i * word + k)) =~= Seq::new(
            bytes.len(),
            |k: int| after(slot_addr(top as int, texts, i) + k),
        ));
    }
    assert(slot(n) == 0) by {
        let bytes = crate::word::word_bytes(0);
        crate::word::law_word_round_trip(0);
        crate::mm::law_held_bytes_are_read(after, slot_addr(top as int, texts, n), bytes);
        assert(Seq::new(word as nat, |k: int| after(base + n * word + k)) =~= Seq::new(
            bytes.len(),
            |k: int| after(slot_addr(top as int, texts, n) + k),
        ));
    }
    assert forall|i: int| 0 <= i < n implies {
        let text = vstd::utf8::encode_utf8((#[trigger] args[i])@);
        let read = Seq::new((text.len() + 1) as nat, |k: int| after(slot(i) + k));
        &&& read == text.push(0)
        &&& vstd::utf8::decode_utf8(read.drop_last()) == args[i]@
        &&& slot(i) + text.len() + 1 == if i == 0 {
            base
        } else {
            slot(i - 1)
        }
        &&& sp <= slot(i)
    } by {
        let text = vstd::utf8::encode_utf8(args[i]@);
        let p = string_addr(top as int, texts, i);
        let read = Seq::new((text.len() + 1) as nat, |k: int| after(slot(i) + k));
        assert(texts[i] == text);
        assert(slot(i) == p);
        crate::mm::law_held_bytes_are_read(after, p, text.push(0));
        assert(read =~= Seq::new(text.push(0).len(), |k: int| after(p + k)));
        assert(read.drop_last() =~= text);
        vstd::utf8::encode_utf8_decode_utf8(args[i]@);
        lemma_strings_size(texts, i + 1, n);
        if i > 0 {
            assert(slot(i - 1) == string_addr(top as int, texts, i - 1));
        }
    }
    if n > 0 {
        assert(slot(n - 1) == string_addr(top as int, texts, n - 1));
    }
}

/// The registers that a program starts with hold addresses: of the array, a word for each argument
/// and one more below the top, and of the stack, aligned and not above the array.
pub proof fn law_argument_registers(top: usize, args: Seq<String>)
    requires
        args_fit(top as int, arg_bytes(args)),
    ensures
        array_addr(top as int, arg_bytes(args)) == top - (args.len() + 1)
            * vstd::layout::size_of::<usize>(),
        0 <= initial_sp(top as int, arg_bytes(args)) <= array_addr(top as int, arg_bytes(args))
            <= top,
        initial_sp(top as int, arg_bytes(args)) % vstd::layout::size_of::<usize>() as int == 0,
{
    law_program_reads_its_arguments(|a: int| 0u8, 0, top, args);
    let word = vstd::layout::size_of::<usize>() as int;
    let n = args.len() as int;
    lemma_strings_size(arg_bytes(args), 0, n);
    assert(0 <= (n + 1) * word) by (nonlinear_arith)
        requires
            n >= 0,
            word >= 0,
    ;
}

} // verus!
