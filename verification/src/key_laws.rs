//! Which clients pass, and what becomes of the keys.
use vstd::prelude::*;
use crate::api_keys::{
    active_keys, changed_key, enabled_keys, hex_of, key_at, key_in, key_of_digest, key_refused,
    keys_but, keys_in_config, little_end, masked, new_key, public_key_json, seed_bytes, KeySeed,
    KeyView,
};
use crate::json::{find, json_int, lemma_find_at, Fields, Json};
use crate::protocol::stream_laws::{part_of, said};
use crate::text::{digit, trimmed};

verus! {

proof fn lemma_enabled_keys(keys: Seq<KeyView>, key: Seq<char>)
    ensures
        enabled_keys(keys).contains(key) <==> exists|i: int|
            0 <= i < keys.len() && (#[trigger] keys[i]).enabled && keys[i].key == key,
    decreases keys.len(),
{
    if keys.len() > 0 {
        let short = keys.drop_last();
        lemma_enabled_keys(short, key);
        let before = enabled_keys(short);
        let all = enabled_keys(keys);
        if keys.last().enabled {
            if before.contains(key) {
                let k = choose|k: int| 0 <= k < before.len() && before[k] == key;
                assert(all[k] == key);
            }
            if keys.last().key == key {
                assert(all[all.len() - 1] == key);
            }
            if all.contains(key) && keys.last().key != key {
                let k = choose|k: int| 0 <= k < all.len() && all[k] == key;
                assert(before[k] == key);
            }
        }
        if exists|i: int| 0 <= i < short.len() && (#[trigger] short[i]).enabled && short[i].key
            == key {
            let i = choose|i: int|
                0 <= i < short.len() && (#[trigger] short[i]).enabled && short[i].key == key;
            assert(keys[i].enabled && keys[i].key == key);
        }
        if exists|i: int| 0 <= i < keys.len() && (#[trigger] keys[i]).enabled && keys[i].key
            == key {
            let i = choose|i: int|
                0 <= i < keys.len() && (#[trigger] keys[i]).enabled && keys[i].key == key;
            if i < short.len() {
                assert(short[i].enabled && short[i].key == key);
            }
        }
    }
}

/// A key lets a client pass exactly where it is one of the configuration that is switched on, or
/// the one that the environment gives.
pub proof fn passing_keys_are_those_switched_on(
    raw: Fields,
    env: Option<Seq<char>>,
    key: Seq<char>,
)
    ensures
        active_keys(raw, env).contains(key) <==> {
            ||| exists|i: int|
                0 <= i < keys_in_config(raw).len() && (#[trigger] keys_in_config(raw)[i]).enabled
                    && keys_in_config(raw)[i].key == key
            ||| env is Some && trimmed(env->0).len() > 0 && trimmed(env->0) == key
        },
{
    let keys = enabled_keys(keys_in_config(raw));
    lemma_enabled_keys(keys_in_config(raw), key);
    match env {
        Some(e) => {
            if trimmed(e).len() > 0 && !keys.contains(trimmed(e)) {
                let all = keys.push(trimmed(e));
                assert(all[all.len() - 1] == trimmed(e));
                if keys.contains(key) {
                    let k = choose|k: int| 0 <= k < keys.len() && keys[k] == key;
                    assert(all[k] == key);
                }
                if all.contains(key) && key != trimmed(e) {
                    let k = choose|k: int| 0 <= k < all.len() && all[k] == key;
                    assert(keys[k] == key);
                }
            }
        },
        None => {},
    }
}

/// An entry of the configuration is read as it says: its id, its key without blanks around it, its
/// name, and switched on unless it says otherwise.
pub proof fn entry_is_read(v: Json)
    requires
        part_of(v, "id"@) is Str,
        said(part_of(v, "id"@)).len() > 0,
        part_of(v, "key"@) is Str,
        trimmed(said(part_of(v, "key"@))).len() > 0,
    ensures
        key_in(v) is Some,
        key_in(v)->0.id == said(part_of(v, "id"@)),
        key_in(v)->0.key == trimmed(said(part_of(v, "key"@))),
        key_in(v)->0.name == said(part_of(v, "name"@)),
        key_in(v)->0.enabled == (part_of(v, "enabled"@) != Json::Bool(false)),
        forall|t: i64|
            part_of(v, "createdAt"@) == #[trigger] json_int(t as int) ==> key_in(v)->0.created_at
                == t,
{
}

/// A single key of an older configuration is one that is switched on.
pub proof fn single_key_passes(raw: Fields, key: Seq<char>)
    requires
        find(raw, "apiKeys"@) is None,
        find(raw, "apiKey"@) == Some(Json::Str(key)),
        trimmed(key).len() > 0,
    ensures
        keys_in_config(raw).len() == 1,
        keys_in_config(raw)[0].key == trimmed(key),
        keys_in_config(raw)[0].enabled,
{
}

/// A change sets what it says, the name without blanks around it, and nothing else. The key itself
/// never changes.
pub proof fn change_sets_what_it_says(k: KeyView, name: Option<Seq<char>>, enabled: Option<bool>)
    ensures
        ({
            let r = changed_key(k, name, enabled);
            &&& r.id == k.id
            &&& r.key == k.key
            &&& r.created_at == k.created_at
            &&& name is Some ==> r.name == trimmed(name->0)
            &&& name is None ==> r.name == k.name
            &&& enabled is Some ==> r.enabled == enabled->0
            &&& enabled is None ==> r.enabled == k.enabled
        }),
{
}

/// A change is made to the first key with the id.
pub proof fn key_is_found(keys: Seq<KeyView>, id: Seq<char>)
    ensures
        match key_at(keys, id) {
            Some(i) => {
                &&& 0 <= i < keys.len()
                &&& keys[i].id == id
                &&& forall|j: int| 0 <= j < i ==> (#[trigger] keys[j]).id != id
            },
            None => forall|j: int| 0 <= j < keys.len() ==> (#[trigger] keys[j]).id != id,
        },
    decreases keys.len(),
{
    if keys.len() > 0 {
        let short = keys.drop_last();
        key_is_found(short, id);
        match key_at(short, id) {
            Some(i) => {
                assert(short[i] == keys[i]);
                assert forall|j: int| 0 <= j < i implies (#[trigger] keys[j]).id != id by {
                    assert(short[j] == keys[j]);
                }
            },
            None => {
                assert forall|j: int| 0 <= j < short.len() implies (#[trigger] keys[j]).id
                    != id by {
                    assert(short[j] == keys[j]);
                }
            },
        }
    }
}

/// What stays after a removal are the keys with other ids, in their order.
pub proof fn removal_keeps_the_others(keys: Seq<KeyView>, id: Seq<char>)
    ensures
        keys_but(keys, id) == keys.filter(|k: KeyView| k.id != id),
    decreases keys.len(),
{
    reveal(Seq::filter);
    if keys.len() > 0 {
        removal_keeps_the_others(keys.drop_last(), id);
    }
}

/// A key that is added is the one that was given, without blanks around it, under the name that
/// was given, switched on, and of this time.
pub proof fn given_key_is_added(
    keys: Seq<KeyView>,
    name: Seq<char>,
    given: Seq<char>,
    s: KeySeed,
    now: i64,
)
    requires
        trimmed(given).len() > 0,
    ensures
        ({
            let k = new_key(keys, name, Some(given), s, now);
            &&& k.key == trimmed(given)
            &&& k.name == trimmed(name)
            &&& k.enabled
            &&& k.created_at == now
        }),
        key_refused(keys, Some(given), s) is None <==> trimmed(given).len() >= 8 && forall|i: int|
            0 <= i < keys.len() ==> (#[trigger] keys[i]).key != trimmed(given),
{
}

/// The value of a hexadecimal digit.
pub open spec fn hex_value(c: char) -> int {
    if '0' <= c <= '9' {
        c as int - '0' as int
    } else if 'a' <= c <= 'f' {
        c as int - 'a' as int + 10
    } else {
        -1
    }
}

proof fn lemma_digit(d: nat)
    requires
        d < 16,
    ensures
        hex_value(digit(d)) == d,
{
}

proof fn lemma_hex(bytes: Seq<u8>, n: nat, i: int)
    requires
        0 <= i < n <= bytes.len(),
    ensures
        hex_of(bytes, n).len() == 2 * n,
        hex_value(hex_of(bytes, n)[2 * i]) * 16 + hex_value(hex_of(bytes, n)[2 * i + 1])
            == bytes[i],
    decreases n,
{
    lemma_hex_len(bytes, n);
    lemma_hex_len(bytes, (n - 1) as nat);
    if i < n - 1 {
        lemma_hex(bytes, (n - 1) as nat, i);
    } else {
        lemma_digit((bytes[n - 1] / 16) as nat);
        lemma_digit((bytes[n - 1] % 16) as nat);
    }
}

proof fn lemma_hex_len(bytes: Seq<u8>, n: nat)
    ensures
        hex_of(bytes, n).len() == 2 * n,
    decreases n,
{
    if n > 0 {
        lemma_hex_len(bytes, (n - 1) as nat);
    }
}

/// A new key is a fixed prefix and the first sixteen bytes of the digest in hexadecimal, high
/// digit first.
pub proof fn new_key_spells_the_digest(digest: Seq<u8>, i: int)
    requires
        digest.len() >= 16,
        0 <= i < 16,
    ensures
        ({
            let k = key_of_digest(digest);
            &&& k.len() == 39
            &&& k.take(7) == "sk-a2a-"@
            &&& hex_value(k[7 + 2 * i]) * 16 + hex_value(k[8 + 2 * i]) == digest[i]
        }),
{
    reveal_strlit("sk-a2a-");
    assert("sk-a2a-"@.len() == 7);
    lemma_hex(digest, 16, i);
    let k = key_of_digest(digest);
    let h = hex_of(digest, 16);
    assert(k.take(7) =~= "sk-a2a-"@);
    assert(k[7 + 2 * i] == h[2 * i]);
    assert(k[8 + 2 * i] == h[2 * i + 1]);
}

/// The number that some bytes spell, the lowest first.
pub open spec fn spelt(bytes: Seq<u8>) -> nat
    decreases bytes.len(),
{
    if bytes.len() == 0 {
        0
    } else {
        bytes[0] as nat + 256 * spelt(bytes.drop_first())
    }
}

pub open spec fn limit_of(width: nat) -> nat
    decreases width,
{
    if width == 0 {
        1
    } else {
        256 * limit_of((width - 1) as nat)
    }
}

/// The bytes of a number spell the number.
pub proof fn bytes_spell_the_number(n: nat, width: nat)
    requires
        n < limit_of(width),
    ensures
        little_end(n, width).len() == width,
        spelt(little_end(n, width)) == n,
    decreases width,
{
    if width > 0 {
        let rest = little_end(n / 256, (width - 1) as nat);
        bytes_spell_the_number(n / 256, (width - 1) as nat);
        assert(little_end(n, width).drop_first() =~= rest);
    }
}

proof fn lemma_limits()
    ensures
        limit_of(4) == 0x1_0000_0000,
        limit_of(8) == 0x1_0000_0000_0000_0000,
        limit_of(16) > u128::MAX,
{
    reveal_with_fuel(limit_of, 17);
}

/// Seeds that differ in anything give different bytes to digest.
pub proof fn seeds_give_different_bytes(s: KeySeed, t: KeySeed)
    requires
        seed_bytes(s) == seed_bytes(t),
    ensures
        s.nanos == t.nanos,
        s.process == t.process,
        s.counter == t.counter,
        s.address == t.address,
{
    lemma_limits();
    bytes_spell_the_number(s.nanos as nat, 16);
    bytes_spell_the_number(t.nanos as nat, 16);
    bytes_spell_the_number(s.process as nat, 4);
    bytes_spell_the_number(t.process as nat, 4);
    bytes_spell_the_number(s.counter as nat, 8);
    bytes_spell_the_number(t.counter as nat, 8);
    bytes_spell_the_number(s.address as nat, 8);
    bytes_spell_the_number(t.address as nat, 8);
    let a = seed_bytes(s);
    let b = seed_bytes(t);
    assert(a.subrange(0, 16) =~= little_end(s.nanos as nat, 16));
    assert(b.subrange(0, 16) =~= little_end(t.nanos as nat, 16));
    assert(a.subrange(16, 20) =~= little_end(s.process as nat, 4));
    assert(b.subrange(16, 20) =~= little_end(t.process as nat, 4));
    assert(a.subrange(20, 28) =~= little_end(s.counter as nat, 8));
    assert(b.subrange(20, 28) =~= little_end(t.counter as nat, 8));
    assert(a.subrange(28, 36) =~= little_end(s.address as nat, 8));
    assert(b.subrange(28, 36) =~= little_end(t.address as nat, 8));
}

/// Of a key that is shown in short only its first six and its last four characters can be seen.
pub proof fn masked_key_shows_its_ends(key: Seq<char>)
    requires
        key.len() >= 6,
    ensures
        masked(key).len() == 13,
        masked(key).take(6) == key.take(6),
        masked(key).subrange(6, 9) == "..."@,
        masked(key).skip(9) == key.skip(key.len() - 4),
{
    reveal_strlit("...");
    assert("..."@.len() == 3);
    assert(masked(key).take(6) =~= key.take(6));
    assert(masked(key).subrange(6, 9) =~= "..."@);
    assert(masked(key).skip(9) =~= key.skip(key.len() - 4));
}

proof fn lemma_key_words()
    ensures
        "id"@.len() == 2,
        "name"@.len() == 4,
        "key"@.len() == 3,
        "masked"@.len() == 6,
        "enabled"@.len() == 7,
        "createdAt"@.len() == 9,
{
    reveal_strlit("id");
    reveal_strlit("name");
    reveal_strlit("key");
    reveal_strlit("masked");
    reveal_strlit("enabled");
    reveal_strlit("createdAt");
}

/// What is shown of a key is what it is.
pub proof fn shown_key_is_the_key(k: KeyView)
    ensures
        ({
            let r = public_key_json(k);
            &&& part_of(r, "id"@) == Json::Str(k.id)
            &&& part_of(r, "name"@) == Json::Str(k.name)
            &&& part_of(r, "key"@) == Json::Str(k.key)
            &&& part_of(r, "masked"@) == Json::Str(masked(k.key))
            &&& part_of(r, "enabled"@) == Json::Bool(k.enabled)
            &&& part_of(r, "createdAt"@) == json_int(k.created_at as int)
        }),
{
    lemma_key_words();
    let o = public_key_json(k)->Obj_0;
    lemma_find_at(o, "id"@, 0);
    lemma_find_at(o, "name"@, 1);
    lemma_find_at(o, "key"@, 2);
    lemma_find_at(o, "masked"@, 3);
    lemma_find_at(o, "enabled"@, 4);
    lemma_find_at(o, "createdAt"@, 5);
}

} // verus!
