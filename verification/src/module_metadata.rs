//! The section of a module that says which of its items are transactional.

use vstd::prelude::*;

verus! {

/// The head of a section: a custom section of 32 bytes whose name has 27.
pub open spec fn section_head() -> Seq<u8> {
    seq![0x00u8, 0x20u8, 0x1bu8]
}

/// The name of the section, `shisoft.transaction.objects`.
pub open spec fn section_name() -> Seq<u8> {
    seq![
        0x73u8, 0x68u8, 0x69u8, 0x73u8, 0x6fu8, 0x66u8, 0x74u8, 0x2eu8, 0x74u8, 0x72u8, 0x61u8,
        0x6eu8, 0x73u8, 0x61u8, 0x63u8, 0x74u8, 0x69u8, 0x6fu8, 0x6eu8, 0x2eu8, 0x6fu8, 0x62u8,
        0x6au8, 0x65u8, 0x63u8, 0x74u8, 0x73u8,
    ]
}

/// The module `wasm` with the section behind it.
pub fn with_transaction_object_metadata(wasm: &[u8], payload: &[u8]) -> (module: Vec<u8>)
    ensures
        module@ == wasm@ + section_head() + section_name() + payload@,
{
    let section: [u8; 30] = [
        0x00, 0x20, 0x1b, 0x73, 0x68, 0x69, 0x73, 0x6f, 0x66, 0x74, 0x2e, 0x74, 0x72, 0x61, 0x6e,
        0x73, 0x61, 0x63, 0x74, 0x69, 0x6f, 0x6e, 0x2e, 0x6f, 0x62, 0x6a, 0x65, 0x63, 0x74, 0x73,
    ];
    assert(section@ =~= section_head() + section_name());
    let mut module: Vec<u8> = Vec::new();
    module.extend_from_slice(wasm);
    module.extend_from_slice(&section);
    module.extend_from_slice(payload);
    assert(module@ =~= wasm@ + section_head() + section_name() + payload@);
    module
}

/// The module `wasm` with its memory transactional.
pub fn with_transaction_memory_metadata(wasm: &[u8]) -> (module: Vec<u8>)
    ensures
        module@ == wasm@ + section_head() + section_name() + seq![1u8, 1u8, 0u8, 0u8],
{
    let payload: [u8; 4] = [1, 1, 0, 0];
    assert(payload@ =~= seq![1u8, 1u8, 0u8, 0u8]);
    with_transaction_object_metadata(wasm, &payload)
}

/// The module `wasm` with its global transactional.
pub fn with_transaction_global_metadata(wasm: &[u8]) -> (module: Vec<u8>)
    ensures
        module@ == wasm@ + section_head() + section_name() + seq![1u8, 0u8, 1u8, 0u8],
{
    let payload: [u8; 4] = [1, 0, 1, 0];
    assert(payload@ =~= seq![1u8, 0u8, 1u8, 0u8]);
    with_transaction_object_metadata(wasm, &payload)
}

/// The head of the section is true of it exactly if its contents have four bytes: it gives the
/// length of the name, and the length of everything behind the second byte.
pub proof fn law_section_head_is_true(payload: Seq<u8>)
    ensures
        section_head()[2] == section_name().len(),
        section_head()[1] == (section_head() + section_name() + payload).skip(2).len()
            <==> payload.len() == 4,
{
}

/// The name of the section, letter by letter.
pub proof fn law_section_name()
    ensures
        section_name().len() == "shisoft.transaction.objects"@.len(),
        forall|i: int|
            0 <= i < section_name().len() ==> #[trigger] section_name()[i] as char
                == "shisoft.transaction.objects"@[i],
{
    reveal_strlit("shisoft.transaction.objects");
}

/// The section is a custom one, and says first how long it is and then how long its name is.
pub proof fn law_section_head()
    ensures
        section_head().len() == 3,
        section_head()[0] == 0,
        section_head()[1] == 1 + section_name().len() + 4,
        section_head()[2] == section_name().len(),
{
}

} // verus!
