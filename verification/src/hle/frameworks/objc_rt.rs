//! Objective-C entry points: message send and the class and selector API.

use vstd::prelude::*;

use crate::hle::frameworks::{Registry, ShimFn};

verus! {

/// The registry with this framework's shims.
pub open spec fn installed(map: Map<Seq<char>, ShimFn>) -> Map<Seq<char>, ShimFn> {
    map.insert("objc_msgSend"@, ShimFn::MessageSend).insert(
        "objc_msgSendSuper"@,
        ShimFn::MessageSend,
    ).insert("objc_msgSendSuper2"@, ShimFn::MessageSend).insert(
        "objc_getClass"@,
        ShimFn::GetClass,
    ).insert("objc_lookUpClass"@, ShimFn::GetClass).insert(
        "objc_getRequiredClass"@,
        ShimFn::GetClass,
    ).insert("objc_getMetaClass"@, ShimFn::GetClass).insert(
        "sel_registerName"@,
        ShimFn::Identity,
    ).insert("sel_getUid"@, ShimFn::Identity).insert("objc_retain"@, ShimFn::Identity).insert(
        "objc_release"@,
        ShimFn::StubZero,
    ).insert("objc_autorelease"@, ShimFn::Identity).insert(
        "objc_retainAutoreleasedReturnValue"@,
        ShimFn::Identity,
    ).insert("objc_autoreleaseReturnValue"@, ShimFn::Identity).insert(
        "objc_alloc"@,
        ShimFn::NewInstance,
    ).insert("objc_alloc_init"@, ShimFn::NewInstance).insert(
        "objc_storeStrong"@,
        ShimFn::StubZero,
    ).insert("objc_autoreleasePoolPush"@, ShimFn::StubZero).insert(
        "objc_autoreleasePoolPop"@,
        ShimFn::StubZero,
    )
}

/// Register this framework's shims.
pub fn install(map: &mut Registry)
    ensures
        final(map)@ == installed(old(map)@),
{
    map.insert("objc_msgSend".to_owned(), ShimFn::MessageSend);
    // Dispatch to the superclass collapses to a plain send.
    map.insert("objc_msgSendSuper".to_owned(), ShimFn::MessageSend);
    map.insert("objc_msgSendSuper2".to_owned(), ShimFn::MessageSend);
    map.insert("objc_getClass".to_owned(), ShimFn::GetClass);
    map.insert("objc_lookUpClass".to_owned(), ShimFn::GetClass);
    map.insert("objc_getRequiredClass".to_owned(), ShimFn::GetClass);
    map.insert("objc_getMetaClass".to_owned(), ShimFn::GetClass);
    // A selector is the pointer to its name.
    map.insert("sel_registerName".to_owned(), ShimFn::Identity);
    map.insert("sel_getUid".to_owned(), ShimFn::Identity);
    map.insert("objc_retain".to_owned(), ShimFn::Identity);
    map.insert("objc_release".to_owned(), ShimFn::StubZero);
    map.insert("objc_autorelease".to_owned(), ShimFn::Identity);
    map.insert("objc_retainAutoreleasedReturnValue".to_owned(), ShimFn::Identity);
    map.insert("objc_autoreleaseReturnValue".to_owned(), ShimFn::Identity);
    map.insert("objc_alloc".to_owned(), ShimFn::NewInstance);
    map.insert("objc_alloc_init".to_owned(), ShimFn::NewInstance);
    map.insert("objc_storeStrong".to_owned(), ShimFn::StubZero);
    map.insert("objc_autoreleasePoolPush".to_owned(), ShimFn::StubZero);
    map.insert("objc_autoreleasePoolPop".to_owned(), ShimFn::StubZero);
}

} // verus!
