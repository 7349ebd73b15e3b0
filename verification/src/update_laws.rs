//! Which release counts as newer, where it may come from, and under which name it is kept.
use vstd::prelude::*;
use crate::json::{json_int, lemma_find_at, Json};
use crate::protocol::stream_laws::{part_of, said};
use crate::text::{blank, ends, holds_part, lowered};
use crate::update::{
    address_refused, asset_name, base_name, cleaned, first_asset, installer_in, installer_json,
    is_program, is_setup, newer, safe_name, unsafe_char, UrlView,
};

verus! {

/// The larger number decides, the first before the second and the second before the third.
pub proof fn larger_version_is_newer(a: (u64, u64, u64), b: (u64, u64, u64))
    ensures
        newer(a, b) == 1 <==> a.0 > b.0 || (a.0 == b.0 && (a.1 > b.1 || (a.1 == b.1 && a.2 > b.2))),
        newer(a, b) == 0 <==> a == b,
        newer(a, b) == -1 <==> newer(b, a) == 1,
{
}

/// An address is accepted exactly where it is one, of the secure scheme, on a host that
/// publishes the releases.
pub proof fn accepted_addresses(u: Option<UrlView>)
    ensures
        address_refused(u) is None <==> u is Some && u->0.scheme == "https"@ && {
            let host = lowered(
                match u->0.host {
                    Some(h) => h,
                    None => Seq::empty(),
                },
            );
            ||| host == "github.com"@
            ||| host == "www.github.com"@
            ||| host == "objects.githubusercontent.com"@
            ||| host == "codeload.github.com"@
            ||| ends(host, ".githubusercontent.com"@)
        },
{
    let hosts = crate::update::allowed_hosts();
    assert(hosts[0] == "github.com"@ && hosts[1] == "www.github.com"@ && hosts[2]
        == "objects.githubusercontent.com"@ && hosts[3] == "codeload.github.com"@);
}

/// The name of an asset, in lower case.
pub open spec fn lower_name(item: Json) -> Seq<char> {
    lowered(said(part_of(item, "name"@)))
}

/// The asset is a program.
pub open spec fn program(item: Json) -> bool {
    ends(lower_name(item), ".exe"@)
}

/// The asset is a program that sets up.
pub open spec fn setup_program(item: Json) -> bool {
    program(item) && (holds_part(lower_name(item), "setup"@) || holds_part(
        lower_name(item),
        "install"@,
    ))
}

proof fn lemma_first_asset(list: Seq<Json>, setup: bool)
    ensures
        match first_asset(list, setup) {
            Some(a) => exists|i: int|
                #![trigger list[i]]
                0 <= i < list.len() && list[i] == a && (if setup {
                    setup_program(a)
                } else {
                    program(a)
                }) && forall|j: int|
                    0 <= j < i ==> !(if setup {
                        setup_program(#[trigger] list[j])
                    } else {
                        program(list[j])
                    }),
            None => forall|j: int|
                0 <= j < list.len() ==> !(if setup {
                    setup_program(#[trigger] list[j])
                } else {
                    program(list[j])
                }),
        },
    decreases list.len(),
{
    if list.len() > 0 {
        assert(asset_name(list[0]) == lower_name(list[0]));
        let here = if setup {
            is_setup(list[0])
        } else {
            is_program(list[0])
        };
        if !here {
            let rest = list.skip(1);
            lemma_first_asset(rest, setup);
            match first_asset(rest, setup) {
                Some(a) => {
                    let i = choose|i: int|
                        #![trigger rest[i]]
                        0 <= i < rest.len() && rest[i] == a && (if setup {
                            setup_program(a)
                        } else {
                            program(a)
                        }) && forall|j: int|
                            0 <= j < i ==> !(if setup {
                                setup_program(#[trigger] rest[j])
                            } else {
                                program(rest[j])
                            });
                    assert(list[i + 1] == a);
                    assert forall|j: int| 0 <= j < i + 1 implies !(if setup {
                        setup_program(#[trigger] list[j])
                    } else {
                        program(list[j])
                    }) by {
                        if j > 0 {
                            assert(rest[j - 1] == list[j]);
                        }
                    }
                },
                None => {
                    assert forall|j: int| 0 <= j < list.len() implies !(if setup {
                        setup_program(#[trigger] list[j])
                    } else {
                        program(list[j])
                    }) by {
                        if j > 0 {
                            assert(rest[j - 1] == list[j]);
                        }
                    }
                },
            }
        } else {
            assert(list[0] == first_asset(list, setup)->0);
        }
    }
}

/// The installer is a program of the release, one that sets up where there is any; there is none
/// exactly where the release has no program.
pub proof fn installer_is_the_setup_program(list: Seq<Json>)
    ensures
        match installer_in(list) {
            Some(a) => {
                &&& list.contains(a)
                &&& program(a)
                &&& (exists|i: int| 0 <= i < list.len() && setup_program(#[trigger] list[i]))
                    ==> setup_program(a)
            },
            None => forall|i: int| 0 <= i < list.len() ==> !program(#[trigger] list[i]),
        },
{
    lemma_first_asset(list, true);
    lemma_first_asset(list, false);
}

proof fn lemma_asset_words()
    ensures
        "name"@.len() == 4,
        "size"@.len() == 4,
        "url"@.len() == 3,
        "name"@ != "size"@,
{
    reveal_strlit("name");
    reveal_strlit("size");
    reveal_strlit("url");
    assert("name"@[0] != "size"@[0]);
}

/// What counts of an installer is as the release has it.
pub proof fn installer_is_told(item: Json)
    ensures
        part_of(installer_json(item), "name"@) == Json::Str(said(part_of(item, "name"@))),
        part_of(installer_json(item), "url"@) == Json::Str(
            said(part_of(item, "browser_download_url"@)),
        ),
        forall|n: int|
            0 <= n <= i64::MAX && part_of(item, "size"@) == #[trigger] json_int(n) ==> part_of(
                installer_json(item),
                "size"@,
            ) == json_int(n),
{
    lemma_asset_words();
    let o = installer_json(item)->Obj_0;
    lemma_find_at(o, "name"@, 0);
    lemma_find_at(o, "size"@, 1);
    lemma_find_at(o, "url"@, 2);
}

/// A plain file name: without separators and other signs that have no place in one, and without
/// blanks around it.
pub open spec fn plain_name(name: Seq<char>) -> bool {
    &&& name.len() > 0
    &&& !blank(name[0], true)
    &&& !blank(name.last(), true)
    &&& forall|i: int| 0 <= i < name.len() ==> !unsafe_char(#[trigger] name[i])
}

proof fn lemma_base_name(folder: Seq<char>, name: Seq<char>)
    requires
        folder.len() == 0 || folder.last() == '/' || folder.last() == '\\',
        forall|i: int| 0 <= i < name.len() ==> !unsafe_char(#[trigger] name[i]),
    ensures
        base_name(folder + name) == name,
    decreases name.len(),
{
    let all = folder + name;
    if name.len() == 0 {
        assert(all =~= folder);
        assert(base_name(all) =~= name);
    } else {
        let short = name.drop_last();
        assert forall|i: int| 0 <= i < short.len() implies !unsafe_char(#[trigger] short[i]) by {
            assert(short[i] == name[i]);
        }
        lemma_base_name(folder, short);
        assert(all.drop_last() =~= folder + short);
        assert(all.last() == name.last());
        assert(!unsafe_char(name[name.len() - 1]));
        assert(short.push(name.last()) =~= name);
    }
}

/// A plain name is kept as it is, and so is the plain name at the end of a path.
pub proof fn plain_name_is_kept(folder: Seq<char>, name: Seq<char>)
    requires
        plain_name(name),
        folder.len() == 0 || folder.last() == '/' || folder.last() == '\\',
    ensures
        safe_name(folder + name) == name,
{
    lemma_base_name(folder, name);
    assert(cleaned(name) =~= name);
    assert(crate::text::js_trimmed(name) == name);
}

} // verus!
