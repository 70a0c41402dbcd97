//! What scutil makes of the scripts that it is given: a model of its store,
//! in which the settings of the network are found again as they were.

use vstd::prelude::*;
use super::macos::{
    dns_key, foreign_cleanup, repair_lines, restore_lines, service_name, setup_lines, state_cleanup,
};
use crate::split::{ended_lines, lemma_ended_lines, lines, one_line};
use crate::text::{starts_with, strip_prefix};

verus! {

/// scutil at work: the dictionary that is being made, as the entries that were
/// added to it, and the store of dictionaries under their keys.
#[verifier::ext_equal]
pub struct Scutil {
    pub dictionary: Seq<Seq<char>>,
    pub store: Map<Seq<char>, Seq<Seq<char>>>,
}

/// The store after a line of a script: `d.init` empties the dictionary and
/// `d.add` adds an entry to it; `get` fetches a dictionary from the store, if
/// it is there, `set` puts the dictionary into the store, and `remove` takes
/// one out of it.
pub open spec fn obey(scutil: Scutil, line: Seq<char>) -> Scutil {
    if line == "d.init"@ {
        Scutil { dictionary: Seq::empty(), ..scutil }
    } else if let Some(entry) = strip_prefix(line, "d.add "@) {
        Scutil { dictionary: scutil.dictionary.push(entry), ..scutil }
    } else if let Some(key) = strip_prefix(line, "get "@) {
        if scutil.store.contains_key(key) {
            Scutil { dictionary: scutil.store[key], ..scutil }
        } else {
            scutil
        }
    } else if let Some(key) = strip_prefix(line, "set "@) {
        Scutil { store: scutil.store.insert(key, scutil.dictionary), ..scutil }
    } else if let Some(key) = strip_prefix(line, "remove "@) {
        Scutil { store: scutil.store.remove(key), ..scutil }
    } else {
        scutil
    }
}

/// The store after the lines of a script.
pub open spec fn obey_all(scutil: Scutil, script: Seq<Seq<char>>) -> Scutil
    decreases script.len(),
{
    if script.len() == 0 {
        scutil
    } else {
        obey(obey_all(scutil, script.drop_last()), script.last())
    }
}

/// The store after a script.
pub open spec fn run(scutil: Scutil, script: Seq<char>) -> Scutil {
    obey_all(scutil, lines(script))
}

/// The store after a number of repairs.
pub open spec fn repaired(scutil: Scutil, service: Seq<char>, repairs: nat) -> Scutil
    decreases repairs,
{
    if repairs == 0 {
        scutil
    } else {
        run(
            repaired(scutil, service, (repairs - 1) as nat),
            ended_lines(repair_lines(service)),
        )
    }
}

/// The keys under which this client, or the one that it takes the place of,
/// keeps something of its own.
pub open spec fn own_key(key: Seq<char>) -> bool {
    ||| key == "State:/Network/awsvpn"@
    ||| key == "State:/Network/awsvpn/OldDNSState"@
    ||| key == "State:/Network/Service/com.amazonaws.acvc/DNS"@
    ||| key == "State:/Network/Service/com.amazonaws.acvc/SMB"@
}

/// The settings of a network service are not among the client's own keys.
proof fn lemma_service_key(service: Seq<char>)
    requires
        service_name(service),
    ensures
        !own_key(dns_key(service)),
{
    reveal_strlit("State:/Network/awsvpn");
    reveal_strlit("State:/Network/awsvpn/OldDNSState");
    reveal_strlit("State:/Network/Service/com.amazonaws.acvc/DNS");
    reveal_strlit("State:/Network/Service/com.amazonaws.acvc/SMB");
    reveal_strlit("State:/Network/Service/");
    reveal_strlit("/DNS");
    let key = dns_key(service);
    assert(key[15] == 'S');
    if key.len() == 45 {
        assert(key[26] == service[3]);
    }
}

proof fn lemma_set(scutil: Scutil, key: Seq<char>)
    ensures
        obey(scutil, "set "@ + key) == (Scutil {
            store: scutil.store.insert(key, scutil.dictionary),
            ..scutil
        }),
{
    reveal_strlit("d.init");
    reveal_strlit("d.add ");
    reveal_strlit("get ");
    reveal_strlit("set ");
    let line = "set "@ + key;
    assert(line[0] == 's');
    assert(!starts_with(line, "d.add "@)) by {
        if starts_with(line, "d.add "@) {
            assert(line.subrange(0, 6)[0] == line[0]);
        }
    }
    assert(!starts_with(line, "get "@)) by {
        if starts_with(line, "get "@) {
            assert(line.subrange(0, 4)[0] == line[0]);
        }
    }
    assert(line.subrange(0, 4) =~= "set "@);
    assert(line.skip(4) =~= key);
}

proof fn lemma_get(scutil: Scutil, key: Seq<char>)
    requires
        scutil.store.contains_key(key),
    ensures
        obey(scutil, "get "@ + key) == (Scutil { dictionary: scutil.store[key], ..scutil }),
{
    reveal_strlit("d.init");
    reveal_strlit("d.add ");
    reveal_strlit("get ");
    let line = "get "@ + key;
    assert(line[0] == 'g');
    assert(!starts_with(line, "d.add "@)) by {
        if starts_with(line, "d.add "@) {
            assert(line.subrange(0, 6)[0] == line[0]);
        }
    }
    assert(line.subrange(0, 4) =~= "get "@);
    assert(line.skip(4) =~= key);
}

proof fn lemma_remove(scutil: Scutil, key: Seq<char>)
    ensures
        obey(scutil, "remove "@ + key) == (Scutil { store: scutil.store.remove(key), ..scutil }),
{
    reveal_strlit("d.init");
    reveal_strlit("d.add ");
    reveal_strlit("get ");
    reveal_strlit("set ");
    reveal_strlit("remove ");
    let line = "remove "@ + key;
    assert(line[0] == 'r');
    assert(!starts_with(line, "d.add "@)) by {
        if starts_with(line, "d.add "@) {
            assert(line.subrange(0, 6)[0] == line[0]);
        }
    }
    assert(!starts_with(line, "get "@)) by {
        if starts_with(line, "get "@) {
            assert(line.subrange(0, 4)[0] == line[0]);
        }
    }
    assert(!starts_with(line, "set "@)) by {
        if starts_with(line, "set "@) {
            assert(line.subrange(0, 4)[0] == line[0]);
        }
    }
    assert(line.subrange(0, 7) =~= "remove "@);
    assert(line.skip(7) =~= key);
}

proof fn lemma_entry(scutil: Scutil, entry: Seq<char>)
    ensures
        obey(scutil, "d.add "@ + entry) == (Scutil {
            dictionary: scutil.dictionary.push(entry),
            ..scutil
        }),
{
    reveal_strlit("d.init");
    reveal_strlit("d.add ");
    let line = "d.add "@ + entry;
    assert(line[2] == 'a');
    assert("d.init"@[2] == 'i');
    assert(line.subrange(0, 6) =~= "d.add "@);
    assert(line.skip(6) =~= entry);
}

/// One script after another.
proof fn lemma_obey_both(scutil: Scutil, first: Seq<Seq<char>>, second: Seq<Seq<char>>)
    ensures
        obey_all(scutil, first + second) == obey_all(obey_all(scutil, first), second),
    decreases second.len(),
{
    if second.len() == 0 {
        assert(first + second =~= first);
    } else {
        assert((first + second).drop_last() =~= first + second.drop_last());
        lemma_obey_both(scutil, first, second.drop_last());
    }
}

/// A script of two lines.
proof fn lemma_obey_two(scutil: Scutil, a: Seq<char>, b: Seq<char>)
    ensures
        obey_all(scutil, seq![a, b]) == obey(obey(scutil, a), b),
{
    reveal_with_fuel(obey_all, 3);
    assert(seq![a, b].drop_last() =~= seq![a]);
    assert(seq![a].drop_last() =~= Seq::empty());
}

/// The lines that both begin the setup and end the restoring.
proof fn lemma_cleanup(scutil: Scutil)
    ensures
        ({
            let after = obey_all(obey_all(scutil, foreign_cleanup()), state_cleanup());
            &&& after.dictionary == scutil.dictionary
            &&& forall|key: Seq<char>| #[trigger]
                after.store.contains_key(key) == (scutil.store.contains_key(key) && !own_key(key))
            &&& forall|key: Seq<char>|
                !own_key(key) ==> #[trigger] after.store[key] == scutil.store[key]
        }),
{
    reveal_strlit("remove ");
    reveal_strlit("State:/Network/awsvpn");
    reveal_strlit("State:/Network/awsvpn/OldDNSState");
    reveal_strlit("State:/Network/Service/com.amazonaws.acvc/DNS");
    reveal_strlit("State:/Network/Service/com.amazonaws.acvc/SMB");
    reveal_strlit("remove State:/Network/awsvpn");
    reveal_strlit("remove State:/Network/awsvpn/OldDNSState");
    reveal_strlit("remove State:/Network/Service/com.amazonaws.acvc/DNS");
    reveal_strlit("remove State:/Network/Service/com.amazonaws.acvc/SMB");
    let dns = "State:/Network/Service/com.amazonaws.acvc/DNS"@;
    let smb = "State:/Network/Service/com.amazonaws.acvc/SMB"@;
    let old = "State:/Network/awsvpn/OldDNSState"@;
    let root = "State:/Network/awsvpn"@;
    assert("remove State:/Network/Service/com.amazonaws.acvc/DNS"@ =~= "remove "@ + dns);
    assert("remove State:/Network/Service/com.amazonaws.acvc/SMB"@ =~= "remove "@ + smb);
    assert("remove State:/Network/awsvpn/OldDNSState"@ =~= "remove "@ + old);
    assert("remove State:/Network/awsvpn"@ =~= "remove "@ + root);
    lemma_obey_two(scutil, "remove "@ + dns, "remove "@ + smb);
    lemma_remove(scutil, dns);
    let s1 = obey(scutil, "remove "@ + dns);
    lemma_remove(s1, smb);
    let s2 = obey(s1, "remove "@ + smb);
    lemma_obey_two(s2, "remove "@ + old, "remove "@ + root);
    lemma_remove(s2, old);
    let s3 = obey(s2, "remove "@ + old);
    lemma_remove(s3, root);
}

/// A line made of two texts.
proof fn lemma_one_line(a: Seq<char>, b: Seq<char>)
    requires
        one_line(a),
        one_line(b),
    ensures
        one_line(a + b),
{
    assert forall|c: char| (a + b).contains(c) implies a.contains(c) || b.contains(c) by {
        let i = choose|i: int| 0 <= i < (a + b).len() && (a + b)[i] == c;
        if i < a.len() {
            assert(a[i] == c);
        } else {
            assert(b[i - a.len()] == c);
        }
    }
}

/// The key of the settings of a network service is a single line.
proof fn lemma_key_is_one_line(service: Seq<char>)
    requires
        service_name(service),
    ensures
        one_line(service),
        one_line(dns_key(service)),
{
    reveal_strlit("State:/Network/Service/");
    reveal_strlit("/DNS");
    assert(one_line("State:/Network/Service/"@));
    assert(one_line("/DNS"@));
    assert(one_line(service));
    lemma_one_line("State:/Network/Service/"@, service);
    lemma_one_line("State:/Network/Service/"@ + service, "/DNS"@);
}

/// The lines of the scripts that are the same for every network service.
proof fn lemma_fixed_lines()
    ensures
        one_line("d.init"@),
        one_line("d.add ServerAddresses * 127.0.0.1"@),
        one_line("d.add PrimaryService "@),
        one_line("d.add HadDNS 1"@),
        one_line("d.add HadDNS 0"@),
        one_line("get "@),
        one_line("set "@),
        one_line("remove "@),
        one_line("get State:/Network/awsvpn/OldDNSState"@),
        one_line("set State:/Network/awsvpn/OldDNSState"@),
        one_line("set State:/Network/awsvpn"@),
        one_line("remove State:/Network/awsvpn"@),
        one_line("remove State:/Network/awsvpn/OldDNSState"@),
        one_line("remove State:/Network/Service/com.amazonaws.acvc/DNS"@),
        one_line("remove State:/Network/Service/com.amazonaws.acvc/SMB"@),
{
    reveal_strlit("d.init");
    reveal_strlit("d.add ServerAddresses * 127.0.0.1");
    reveal_strlit("d.add PrimaryService ");
    reveal_strlit("d.add HadDNS 1");
    reveal_strlit("d.add HadDNS 0");
    reveal_strlit("get ");
    reveal_strlit("set ");
    reveal_strlit("remove ");
    reveal_strlit("get State:/Network/awsvpn/OldDNSState");
    reveal_strlit("set State:/Network/awsvpn/OldDNSState");
    reveal_strlit("set State:/Network/awsvpn");
    reveal_strlit("remove State:/Network/awsvpn");
    reveal_strlit("remove State:/Network/awsvpn/OldDNSState");
    reveal_strlit("remove State:/Network/Service/com.amazonaws.acvc/DNS");
    reveal_strlit("remove State:/Network/Service/com.amazonaws.acvc/SMB");
}

/// scutil reads the lines of the scripts as they were written.
proof fn lemma_scripts_are_read(service: Seq<char>, had_dns: bool)
    requires
        service_name(service),
    ensures
        lines(ended_lines(setup_lines(service, had_dns))) == setup_lines(service, had_dns),
        lines(ended_lines(repair_lines(service))) == repair_lines(service),
        lines(ended_lines(restore_lines(Some(service), had_dns))) == restore_lines(
            Some(service),
            had_dns,
        ),
{
    lemma_fixed_lines();
    lemma_key_is_one_line(service);
    lemma_one_line("get "@, dns_key(service));
    lemma_one_line("set "@, dns_key(service));
    lemma_one_line("remove "@, dns_key(service));
    lemma_one_line("d.add PrimaryService "@, service);
    let repair = repair_lines(service);
    assert forall|i: int| 0 <= i < repair.len() implies one_line(#[trigger] repair[i]) by {}
    lemma_ended_lines(repair);
    let restore = restore_lines(Some(service), had_dns);
    assert forall|i: int| 0 <= i < restore.len() implies one_line(#[trigger] restore[i]) by {}
    lemma_ended_lines(restore);
    let setup = setup_lines(service, had_dns);
    assert forall|i: int| 0 <= i < setup.len() implies one_line(#[trigger] setup[i]) by {}
    lemma_ended_lines(setup);
}

/// The settings that point at the local proxy.
pub open spec fn proxy_settings() -> Seq<Seq<char>> {
    seq!["ServerAddresses * 127.0.0.1"@]
}

/// A repair points the settings at the local proxy and changes nothing else.
proof fn lemma_repair(scutil: Scutil, service: Seq<char>)
    ensures
        obey_all(scutil, repair_lines(service)) == (Scutil {
            dictionary: proxy_settings(),
            store: scutil.store.insert(dns_key(service), proxy_settings()),
        }),
{
    reveal_strlit("d.add ");
    reveal_strlit("ServerAddresses * 127.0.0.1");
    reveal_strlit("d.add ServerAddresses * 127.0.0.1");
    let entry = "ServerAddresses * 127.0.0.1"@;
    let line = "d.add ServerAddresses * 127.0.0.1"@;
    let set = "set "@ + dns_key(service);
    assert(line =~= "d.add "@ + entry);
    assert(repair_lines(service).drop_last() =~= seq!["d.init"@, line]);
    lemma_obey_two(scutil, "d.init"@, line);
    let s1 = obey(scutil, "d.init"@);
    lemma_entry(s1, entry);
    let s2 = obey(s1, line);
    assert(s2.dictionary =~= proxy_settings());
    lemma_set(s2, dns_key(service));
}

/// What the setup notes for the restoring.
proof fn lemma_note(scutil: Scutil, service: Seq<char>, had_line: Seq<char>, had_entry: Seq<char>)
    requires
        had_line == "d.add "@ + had_entry,
    ensures
        ({
            let note = seq![
                "d.init"@,
                "d.add PrimaryService "@ + service,
                had_line,
                "set State:/Network/awsvpn"@,
            ];
            let after = obey_all(scutil, note);
            &&& after.store == scutil.store.insert("State:/Network/awsvpn"@, after.dictionary)
            &&& after.dictionary == seq!["PrimaryService "@ + service, had_entry]
        }),
{
    reveal_strlit("d.add ");
    reveal_strlit("PrimaryService ");
    reveal_strlit("d.add PrimaryService ");
    reveal_strlit("set ");
    reveal_strlit("State:/Network/awsvpn");
    reveal_strlit("set State:/Network/awsvpn");
    let entry = "PrimaryService "@ + service;
    let line = "d.add PrimaryService "@ + service;
    let root = "State:/Network/awsvpn"@;
    let set = "set State:/Network/awsvpn"@;
    assert(line =~= "d.add "@ + entry);
    assert(set =~= "set "@ + root);
    let first = seq!["d.init"@, line];
    let second = seq![had_line, set];
    assert(seq!["d.init"@, line, had_line, set] =~= first + second);
    lemma_obey_both(scutil, first, second);
    lemma_obey_two(scutil, "d.init"@, line);
    let s1 = obey(scutil, "d.init"@);
    lemma_entry(s1, entry);
    let s2 = obey(s1, line);
    lemma_obey_two(s2, had_line, set);
    lemma_entry(s2, had_entry);
    let s3 = obey(s2, had_line);
    assert(s3.dictionary =~= seq![entry, had_entry]);
    lemma_set(s3, root);
}

/// What is noted for the restoring: the network service, and whether it had
/// settings.
pub open spec fn note_of(service: Seq<char>, had_dns: bool) -> Seq<Seq<char>> {
    seq![
        "PrimaryService "@ + service,
        if had_dns {
            "HadDNS 1"@
        } else {
            "HadDNS 0"@
        },
    ]
}

/// What the settings and their copy are once the resolver has been configured.
pub open spec fn configured(before: Scutil, now: Scutil, service: Seq<char>) -> bool {
    let key = dns_key(service);
    let old = "State:/Network/awsvpn/OldDNSState"@;
    &&& now.store.contains_key(key)
    &&& now.store[key] == proxy_settings()
    &&& now.store.contains_key("State:/Network/awsvpn"@)
    &&& now.store["State:/Network/awsvpn"@] == note_of(service, before.store.contains_key(key))
    &&& before.store.contains_key(key) ==> now.store.contains_key(old) && now.store[old]
        == before.store[key]
    &&& forall|other: Seq<char>|
        !own_key(other) && other != key ==> #[trigger] now.store.contains_key(other)
            == before.store.contains_key(other) && now.store[other] == before.store[other]
}

/// The setup points the settings at the local proxy and keeps what they were.
proof fn lemma_setup(before: Scutil, service: Seq<char>)
    requires
        service_name(service),
    ensures
        configured(
            before,
            obey_all(before, setup_lines(service, before.store.contains_key(dns_key(service)))),
            service,
        ),
{
    let key = dns_key(service);
    let had_dns = before.store.contains_key(key);
    let old = "State:/Network/awsvpn/OldDNSState"@;
    let root = "State:/Network/awsvpn"@;
    lemma_service_key(service);
    let cleanup = foreign_cleanup() + state_cleanup();
    let keep = if had_dns {
        seq!["get "@ + key, "set State:/Network/awsvpn/OldDNSState"@]
    } else {
        Seq::empty()
    };
    let had_line = if had_dns {
        "d.add HadDNS 1"@
    } else {
        "d.add HadDNS 0"@
    };
    let note = seq!["d.init"@, "d.add PrimaryService "@ + service, had_line,
        "set State:/Network/awsvpn"@];
    lemma_obey_both(before, foreign_cleanup(), state_cleanup());
    lemma_cleanup(before);
    let s1 = obey_all(before, cleanup);
    lemma_obey_both(before, cleanup, keep);
    let s2 = obey_all(s1, keep);
    assert(root.len() != old.len()) by {
        reveal_strlit("State:/Network/awsvpn");
        reveal_strlit("State:/Network/awsvpn/OldDNSState");
    }
    if had_dns {
        assert("set State:/Network/awsvpn/OldDNSState"@ =~= "set "@ + old) by {
            reveal_strlit("set ");
            reveal_strlit("State:/Network/awsvpn/OldDNSState");
            reveal_strlit("set State:/Network/awsvpn/OldDNSState");
        }
        lemma_obey_two(s1, "get "@ + key, "set "@ + old);
        lemma_get(s1, key);
        lemma_set(obey(s1, "get "@ + key), old);
        assert(s2.store == s1.store.insert(old, before.store[key]));
    } else {
        assert(s2 == s1);
    }
    lemma_obey_both(before, cleanup + keep, repair_lines(service));
    lemma_repair(s2, service);
    let s3 = obey_all(s2, repair_lines(service));
    lemma_obey_both(before, cleanup + keep + repair_lines(service), note);
    let had_entry = if had_dns {
        "HadDNS 1"@
    } else {
        "HadDNS 0"@
    };
    assert(had_line =~= "d.add "@ + had_entry) by {
        reveal_strlit("d.add ");
        reveal_strlit("HadDNS 1");
        reveal_strlit("HadDNS 0");
        reveal_strlit("d.add HadDNS 1");
        reveal_strlit("d.add HadDNS 0");
    }
    lemma_note(s3, service, had_line, had_entry);
    assert(setup_lines(service, had_dns) =~= cleanup + keep + repair_lines(service) + note);
}

/// Repairs leave the settings and their copy as the setup has left them.
proof fn lemma_repairs(before: Scutil, now: Scutil, service: Seq<char>, repairs: nat)
    requires
        service_name(service),
        configured(before, now, service),
    ensures
        configured(before, repaired(now, service, repairs), service),
    decreases repairs,
{
    if repairs > 0 {
        let earlier = repaired(now, service, (repairs - 1) as nat);
        lemma_repairs(before, now, service, (repairs - 1) as nat);
        lemma_scripts_are_read(service, true);
        lemma_repair(earlier, service);
        lemma_service_key(service);
        let later = repaired(now, service, repairs);
        assert(later.store == earlier.store.insert(dns_key(service), proxy_settings()));
        assert forall|other: Seq<char>|
            !own_key(other) && other != dns_key(service) implies #[trigger] later.store.contains_key(
            other,
        ) == before.store.contains_key(other) && later.store[other] == before.store[other] by {
            assert(earlier.store.contains_key(other) == before.store.contains_key(other));
        }
    }
}

/// The settings of the network are restored: after the setup, any number of
/// repairs and the cleanup, the settings of the service are what they were
/// before, or are not there if they were not. Nothing that was kept is left
/// behind, and the settings of other services are untouched. In between, the
/// settings point at the local proxy.
pub proof fn lemma_settings_are_restored(before: Scutil, service: Seq<char>, repairs: nat)
    requires
        service_name(service),
    ensures
        ({
            let key = dns_key(service);
            let had_dns = before.store.contains_key(key);
            let set_up = run(before, ended_lines(setup_lines(service, had_dns)));
            let kept_up = repaired(set_up, service, repairs);
            let after = run(kept_up, ended_lines(restore_lines(Some(service), had_dns)));
            &&& kept_up.store.contains_key(key)
            &&& kept_up.store[key] == proxy_settings()
            &&& after.store.contains_key(key) == had_dns
            &&& had_dns ==> after.store[key] == before.store[key]
            &&& !after.store.contains_key("State:/Network/awsvpn"@)
            &&& !after.store.contains_key("State:/Network/awsvpn/OldDNSState"@)
            &&& forall|other: Seq<char>|
                !own_key(other) ==> #[trigger] after.store.contains_key(other)
                    == before.store.contains_key(other) && (after.store.contains_key(other)
                    ==> after.store[other] == before.store[other])
        }),
{
    let key = dns_key(service);
    let old = "State:/Network/awsvpn/OldDNSState"@;
    let had_dns = before.store.contains_key(key);
    lemma_scripts_are_read(service, had_dns);
    lemma_service_key(service);
    lemma_setup(before, service);
    let set_up = obey_all(before, setup_lines(service, had_dns));
    lemma_repairs(before, set_up, service, repairs);
    let kept_up = repaired(set_up, service, repairs);
    let first = if had_dns {
        seq!["get State:/Network/awsvpn/OldDNSState"@, "set "@ + key]
    } else {
        seq!["remove "@ + key]
    };
    let restored = obey_all(kept_up, first);
    if had_dns {
        assert("get State:/Network/awsvpn/OldDNSState"@ =~= "get "@ + old) by {
            reveal_strlit("get ");
            reveal_strlit("State:/Network/awsvpn/OldDNSState");
            reveal_strlit("get State:/Network/awsvpn/OldDNSState");
        }
        lemma_obey_two(kept_up, "get "@ + old, "set "@ + key);
        lemma_get(kept_up, old);
        lemma_set(obey(kept_up, "get "@ + old), key);
    } else {
        assert(first.drop_last() =~= Seq::empty());
        reveal_with_fuel(obey_all, 2);
        lemma_remove(kept_up, key);
    }
    lemma_obey_both(kept_up, first, foreign_cleanup());
    lemma_obey_both(kept_up, first + foreign_cleanup(), state_cleanup());
    lemma_cleanup(restored);
    assert(restore_lines(Some(service), had_dns) =~= first + foreign_cleanup() + state_cleanup());
}

/// While the settings point at the local proxy, the store notes which network
/// service they belong to, whether it had settings, and those settings
/// themselves, through any number of repairs.
pub proof fn lemma_settings_are_noted(before: Scutil, service: Seq<char>, repairs: nat)
    requires
        service_name(service),
    ensures
        ({
            let key = "State:/Network/Service/"@ + service + "/DNS"@;
            let had_dns = before.store.contains_key(key);
            let set_up = run(before, ended_lines(setup_lines(service, had_dns)));
            let now = repaired(set_up, service, repairs);
            &&& now.store.contains_key("State:/Network/awsvpn"@)
            &&& now.store["State:/Network/awsvpn"@] == seq![
                "PrimaryService "@ + service,
                if had_dns {
                    "HadDNS 1"@
                } else {
                    "HadDNS 0"@
                },
            ]
            &&& had_dns ==> now.store.contains_key("State:/Network/awsvpn/OldDNSState"@)
                && now.store["State:/Network/awsvpn/OldDNSState"@] == before.store[key]
            &&& now.store.contains_key(key) && now.store[key] == seq![
                "ServerAddresses * 127.0.0.1"@,
            ]
        }),
{
    let had_dns = before.store.contains_key(dns_key(service));
    lemma_scripts_are_read(service, had_dns);
    lemma_setup(before, service);
    let set_up = obey_all(before, setup_lines(service, had_dns));
    lemma_repairs(before, set_up, service, repairs);
}

} // verus!
