use vstd::prelude::*;

verus! {

/// Bytes of one encoded VM instruction.
pub const INSTR_SIZE: usize = 20;

/// Threads in one block of the hash kernel.
pub const THREADS_PER_BLOCK: u32 = 256;

/// Bytes of one hash that the kernel writes back.
pub const HASH_SIZE: usize = 64;

/// Bytes of the program buffer of one hash: one encoded instruction per
/// instruction of the program.
pub fn program_size(nb_instrs: u32) -> (size: usize)
    requires
        nb_instrs * 20 <= usize::MAX,
    ensures
        size == nb_instrs * 20,
{
    nb_instrs as usize * INSTR_SIZE
}

/// The zeroed program buffers of `num_hashes` hashes, one after another.
pub fn template_programs(num_hashes: usize, nb_instrs: u32) -> (buf: Vec<u8>)
    requires
        nb_instrs * 20 <= usize::MAX,
        num_hashes * (nb_instrs * 20) <= usize::MAX,
    ensures
        buf@ == Seq::new((num_hashes * (nb_instrs * 20)) as nat, |i: int| 0u8),
{
    let size = program_size(nb_instrs);
    let total = num_hashes * size;
    let mut buf: Vec<u8> = Vec::new();
    let mut i: usize = 0;
    while i < total
        invariant
            i <= total,
            buf@ == Seq::new(i as nat, |q: int| 0u8),
        decreases total - i,
    {
        buf.push(0u8);
        assert(Seq::new((i + 1) as nat, |q: int| 0u8) =~= Seq::new(i as nat, |q: int| 0u8).push(
            0u8,
        ));
        i = i + 1;
    }
    buf
}

/// Blocks needed so that each of `num_hashes` hashes gets its own thread.
pub fn grid_blocks(num_hashes: usize) -> (blocks: u32)
    requires
        num_hashes + 255 <= u32::MAX,
    ensures
        blocks == (num_hashes + 255) / 256,
        blocks * 256 >= num_hashes,
        blocks * 256 < num_hashes + 256,
{
    let n: u32 = num_hashes as u32;
    (n + (THREADS_PER_BLOCK - 1)) / THREADS_PER_BLOCK
}

/// The length of the longest salt (0 for none).
pub open spec fn spec_max_len(salts: Seq<Seq<u8>>) -> nat
    decreases salts.len(),
{
    if salts.len() == 0 {
        0
    } else {
        let rest = spec_max_len(salts.drop_last());
        if salts.last().len() > rest {
            salts.last().len()
        } else {
            rest
        }
    }
}

/// The salts one after another, each padded with zeros to `width` bytes.
pub open spec fn spec_pack(salts: Seq<Seq<u8>>, width: nat) -> Seq<u8>
    decreases salts.len(),
{
    if salts.len() == 0 {
        Seq::empty()
    } else {
        spec_pack(salts.drop_last(), width) + salts.last() + Seq::new(
            (width - salts.last().len()) as nat,
            |i: int| 0u8,
        )
    }
}

/// The salts as plain byte sequences.
pub open spec fn salt_views(salts: Seq<&[u8]>) -> Seq<Seq<u8>> {
    salts.map_values(|s: &[u8]| s@)
}

/// The common slot width is the length of the longest salt: no salt is
/// longer, and some salt has exactly that length.
pub proof fn lemma_max_len_bounds(salts: Seq<Seq<u8>>)
    ensures
        forall|i: int| 0 <= i < salts.len() ==> #[trigger] salts[i].len() <= spec_max_len(salts),
        salts.len() > 0 ==> exists|i: int|
            0 <= i < salts.len() && #[trigger] salts[i].len() == spec_max_len(salts),
    decreases salts.len(),
{
    if salts.len() > 0 {
        let init = salts.drop_last();
        lemma_max_len_bounds(init);
        assert forall|i: int| 0 <= i < salts.len() implies #[trigger] salts[i].len()
            <= spec_max_len(salts) by {
            if i < salts.len() - 1 {
                assert(salts[i] == init[i]);
            }
        }
        if salts.last().len() > spec_max_len(init) {
            assert(salts[salts.len() - 1].len() == spec_max_len(salts));
        } else if init.len() > 0 {
            let j = choose|j: int| 0 <= j < init.len() && #[trigger] init[j].len() == spec_max_len(init);
            assert(salts[j] == init[j]);
        } else {
            assert(salts[0].len() == spec_max_len(salts));
        }
    }
}

proof fn lemma_pack_len(salts: Seq<Seq<u8>>, width: nat)
    requires
        forall|i: int| 0 <= i < salts.len() ==> #[trigger] salts[i].len() <= width,
    ensures
        spec_pack(salts, width).len() == salts.len() * width,
    decreases salts.len(),
{
    if salts.len() > 0 {
        let init = salts.drop_last();
        assert forall|i: int| 0 <= i < init.len() implies #[trigger] init[i].len() <= width by {
            assert(init[i] == salts[i]);
        }
        lemma_pack_len(init, width);
        assert(salts[salts.len() - 1].len() <= width);
        assert(salts.len() * width == init.len() * width + width) by (nonlinear_arith)
            requires
                init.len() + 1 == salts.len(),
        ;
    }
}

/// Packs the salts of a kernel launch into one buffer: every salt padded
/// with zeros to the length of the longest, one after another. Returns the
/// buffer and that common length.
pub fn pack_salts(salts: &[&[u8]]) -> (r: (Vec<u8>, usize))
    ensures
        r.1 == spec_max_len(salt_views(salts@)),
        r.0@ == spec_pack(salt_views(salts@), r.1 as nat),
        r.0@.len() == salts@.len() * r.1,
{
    let ghost views = salt_views(salts@);
    let mut width: usize = 0;
    let mut i: usize = 0;
    while i < salts.len()
        invariant
            i <= salts@.len(),
            views == salt_views(salts@),
            width == spec_max_len(views.take(i as int)),
        decreases salts@.len() - i,
    {
        assert(views.take(i + 1).drop_last() =~= views.take(i as int));
        assert(views.take(i + 1).last() == salts@[i as int]@);
        let len = salts[i].len();
        if len > width {
            width = len;
        }
        i = i + 1;
    }
    assert(views.take(salts@.len() as int) =~= views);
    proof {
        lemma_max_len_bounds(views);
    }
    let mut packed: Vec<u8> = Vec::new();
    let mut i: usize = 0;
    assert(views.take(0) =~= Seq::<Seq<u8>>::empty());
    while i < salts.len()
        invariant
            i <= salts@.len(),
            views == salt_views(salts@),
            width == spec_max_len(views),
            forall|k: int| 0 <= k < views.len() ==> #[trigger] views[k].len() <= width,
            packed@ == spec_pack(views.take(i as int), width as nat),
        decreases salts@.len() - i,
    {
        let salt: &[u8] = salts[i];
        assert(salt@ == views[i as int]);
        let ghost before = packed@;
        let mut j: usize = 0;
        while j < salt.len()
            invariant
                j <= salt@.len(),
                packed@ == before + salt@.take(j as int),
            decreases salt@.len() - j,
        {
            packed.push(salt[j]);
            assert(salt@.take(j + 1) =~= salt@.take(j as int).push(salt@[j as int]));
            j = j + 1;
        }
        assert(salt@.take(salt@.len() as int) =~= salt@);
        let ghost mid = packed@;
        let mut p: usize = salt.len();
        while p < width
            invariant
                salt@.len() <= p <= width,
                packed@ == mid + Seq::new((p - salt@.len()) as nat, |q: int| 0u8),
            decreases width - p,
        {
            packed.push(0u8);
            assert(Seq::new((p + 1 - salt@.len()) as nat, |q: int| 0u8) =~= Seq::new(
                (p - salt@.len()) as nat,
                |q: int| 0u8,
            ).push(0u8));
            p = p + 1;
        }
        assert(views.take(i + 1).drop_last() =~= views.take(i as int));
        assert(views.take(i + 1).last() == views[i as int]);
        assert(packed@ =~= spec_pack(views.take(i + 1), width as nat));
        i = i + 1;
    }
    assert(views.take(salts@.len() as int) =~= views);
    proof {
        lemma_pack_len(views, width as nat);
    }
    (packed, width)
}

/// Cuts the buffer the kernel wrote into one 64-byte hash per salt.
pub fn split_results(host: &[u8], num_hashes: usize) -> (out: Vec<[u8; 64]>)
    requires
        num_hashes * 64 <= host@.len(),
    ensures
        out@.len() == num_hashes,
        forall|i: int|
            0 <= i < num_hashes ==> #[trigger] out@[i]@ == host@.subrange(i * 64, i * 64 + 64),
{
    let mut out: Vec<[u8; 64]> = Vec::new();
    let mut i: usize = 0;
    let host_len = host.len();
    while i < num_hashes
        invariant
            i <= num_hashes,
            host_len == host@.len(),
            num_hashes * 64 <= host@.len(),
            out@.len() == i,
            forall|k: int|
                0 <= k < i ==> #[trigger] out@[k]@ == host@.subrange(k * 64, k * 64 + 64),
        decreases num_hashes - i,
    {
        assert(i * 64 + 64 <= num_hashes * 64) by (nonlinear_arith)
            requires
                i < num_hashes,
        ;
        assert(i * 64 <= host_len);
        let base: usize = i * 64;
        let mut result = [0u8; 64];
        let mut j: usize = 0;
        while j < 64
            invariant
                j <= 64,
                base == i * 64,
                base + 64 <= host@.len(),
                forall|q: int| 0 <= q < j ==> result@[q] == host@[base + q],
            decreases 64 - j,
        {
            result[j] = host[base + j];
            j = j + 1;
        }
        assert(result@ =~= host@.subrange(i * 64, i * 64 + 64));
        out.push(result);
        i = i + 1;
    }
    out
}

/// The kernel finds every salt in its own slot: salt `i` starts at byte
/// `i * width` of the packed buffer, and the rest of its slot is zeros.
pub proof fn lemma_pack_slot(salts: Seq<Seq<u8>>, width: nat, i: int)
    requires
        forall|k: int| 0 <= k < salts.len() ==> #[trigger] salts[k].len() <= width,
        0 <= i < salts.len(),
    ensures
        spec_pack(salts, width).subrange(i * width, i * width + salts[i].len()) == salts[i],
        forall|q: int|
            i * width + salts[i].len() <= q < (i + 1) * width ==> #[trigger] spec_pack(
                salts,
                width,
            )[q] == 0u8,
    decreases salts.len(),
{
    let init = salts.drop_last();
    let n = salts.len();
    assert forall|k: int| 0 <= k < init.len() implies #[trigger] init[k].len() <= width by {
        assert(init[k] == salts[k]);
    }
    lemma_pack_len(init, width);
    let head = spec_pack(init, width);
    let last = salts.last();
    let pad = Seq::new((width - last.len()) as nat, |q: int| 0u8);
    assert(spec_pack(salts, width) == head + last + pad);
    assert(last.len() <= width) by {
        assert(salts[n - 1].len() <= width);
    }
    if i < n - 1 {
        lemma_pack_slot(init, width, i);
        assert(init[i] == salts[i]);
        assert((i + 1) * width <= init.len() * width) by (nonlinear_arith)
            requires
                i + 1 <= init.len(),
        ;
        assert(i * width + salts[i].len() <= (i + 1) * width) by (nonlinear_arith)
            requires
                salts[i].len() <= width,
        ;
        assert(0 <= i * width) by (nonlinear_arith)
            requires
                0 <= i,
        ;
        assert(spec_pack(salts, width).subrange(i * width, i * width + salts[i].len())
            =~= head.subrange(i * width, i * width + salts[i].len()));
        assert forall|q: int|
            i * width + salts[i].len() <= q < (i + 1) * width implies #[trigger] spec_pack(
            salts,
            width,
        )[q] == 0u8 by {
            assert(spec_pack(salts, width)[q] == head[q]);
        }
    } else {
        assert(i * width == init.len() * width);
        assert(spec_pack(salts, width).subrange(i * width, i * width + salts[i].len()) =~= last);
        assert((i + 1) * width == i * width + width) by (nonlinear_arith);
        assert forall|q: int|
            i * width + salts[i].len() <= q < (i + 1) * width implies #[trigger] spec_pack(
            salts,
            width,
        )[q] == 0u8 by {
            assert(spec_pack(salts, width)[q] == pad[q - i * width - last.len()]);
        }
    }
}

} // verus!
