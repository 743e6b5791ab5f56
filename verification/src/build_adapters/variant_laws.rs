//! What the name of an Android variant says.

use super::android::{base_split, build_type_spec, splits_at_type, test_split, tested_variant, variant_name};
use crate::text::{after_prefix, before_suffix, is_upper, lowered};
use crate::text_laws::law_the_rest_follows_its_beginning;
use vstd::prelude::*;

verus! {

/// A build type that Gradle's Android plugin or its users commonly have.
pub open spec fn is_type(t: Seq<char>) -> bool {
    t == "debug"@ || t == "release"@ || t == "benchmark"@ || t == "profile"@ || t == "staging"@
}

proof fn lemma_types()
    ensures
        forall|i: int| 0 <= i < build_type_spec().len() ==> is_type(#[trigger] build_type_spec()[i]),
        forall|t: Seq<char>| #[trigger] is_type(t) ==> exists|i: int|
            0 <= i < build_type_spec().len() && #[trigger] build_type_spec()[i] == t,
{
    let all = build_type_spec();
    assert(all[0] == "debug"@);
    assert(all[1] == "release"@);
    assert(all[2] == "benchmark"@);
    assert(all[3] == "profile"@);
    assert(all[4] == "staging"@);
}

/// Whether a name is a flavor and a build type: the type, in any case, is all of
/// it, or follows the flavor with a capital letter.
pub open spec fn is_made_of(base: Seq<char>, flavor: Option<Seq<char>>, build_type: Seq<char>) -> bool {
    match flavor {
        None => lowered(base) == build_type,
        Some(f) => f.len() > 0 && base.len() == f.len() + build_type.len() && base.take(f.len() as int) == f
            && lowered(base).skip(f.len() as int) == build_type && is_upper(base[f.len() as int]),
    }
}

proof fn lemma_base(base: Seq<char>, i: int)
    requires
        0 <= i,
    ensures
        base_split(base, i).1 matches Some(t) ==> is_type(t) && is_made_of(base, base_split(base, i).0, t),
        base_split(base, i).1 is None ==> base_split(base, i).0 is None && forall|k: int|
            i <= k < build_type_spec().len() ==> lowered(base) != #[trigger] build_type_spec()[k] && !splits_at_type(
                base,
                build_type_spec()[k],
            ),
    decreases build_type_spec().len() - i,
{
    if i < build_type_spec().len() {
        lemma_types();
        let bt = build_type_spec()[i];
        assert(lowered(base).len() == base.len());
        if lowered(base) != bt && !splits_at_type(base, bt) {
            lemma_base(base, i + 1);
        }
    }
}

/// Which tests a name's ending says the variant is of.
pub open spec fn is_test_of(name: Seq<char>, base: Seq<char>, test: Option<Seq<char>>) -> bool {
    match test {
        Some(t) => (t == "androidTest"@ && name == base + "AndroidTest"@) || (t == "unitTest"@ && name == base
            + "UnitTest"@),
        None => name == base && before_suffix(name, "AndroidTest"@) is None && before_suffix(name, "UnitTest"@) is None,
    }
}

/// A variant's name is its flavor, its build type and which tests it is of, where
/// it is of any; a name without a known build type says neither type nor flavor.
pub proof fn law_a_variant_is_told_by_its_name(name: Seq<char>)
    ensures
        ({
            let base = test_split(name).0;
            let v = variant_name(name);
            &&& is_test_of(name, base, v.test)
            &&& v.build_type matches Some(t) ==> is_type(t) && is_made_of(base, v.flavor, t)
            &&& v.build_type is None ==> v.flavor is None && forall|t: Seq<char>| #[trigger]
                is_type(t) ==> !is_made_of(base, None, t)
        }),
{
    let base = test_split(name).0;
    lemma_types();
    lemma_base(base, 0);
    if before_suffix(name, "AndroidTest"@) is Some {
        law_the_rest_follows_its_beginning(name, "AndroidTest"@, base);
    } else if before_suffix(name, "UnitTest"@) is Some {
        law_the_rest_follows_its_beginning(name, "UnitTest"@, base);
    }
    if variant_name(name).build_type is None {
        assert forall|t: Seq<char>| #[trigger] is_type(t) implies !is_made_of(base, None, t) by {
            let i = choose|i: int| 0 <= i < build_type_spec().len() && #[trigger] build_type_spec()[i] == t;
            assert(lowered(base) != build_type_spec()[i]);
        }
    }
}

/// A test task names the variant it tests between `test` and `UnitTest`.
pub proof fn law_a_test_task_names_its_variant(name: Seq<char>, variant: Seq<char>)
    ensures
        variant.len() > 0 && name == "test"@ + (variant + "UnitTest"@) ==> tested_variant(name) == Some(
            variant + "UnitTest"@,
        ),
        tested_variant(name) matches Some(rest) ==> name == "test"@ + rest && before_suffix(rest, "UnitTest"@) is Some,
{
    law_the_rest_follows_its_beginning(name, "test"@, variant + "UnitTest"@);
    law_the_rest_follows_its_beginning(variant + "UnitTest"@, "UnitTest"@, variant);
    if after_prefix(name, "test"@) is Some {
        law_the_rest_follows_its_beginning(name, "test"@, after_prefix(name, "test"@)->0);
    }
}

} // verus!
