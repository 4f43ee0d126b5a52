//! What holds of every connection record: written as an element, it is
//! read back from it as the record it was.

use vstd::prelude::*;
use crate::config::connection_xml::{
    all_connection_nodes, block, close_tag, connection_element, connection_nodes, folder_nodes,
    initial_state, number_of, number_or, open_tag, optional_attribute, optional_attributes,
    optional_pairs, parse_connection, parse_topic, port_text, present, records_of,
    required_attributes, run, security_of, step, store_nodes, topic_element, topic_nodes,
    topic_pairs, version_of, LoadStateView,
};
use crate::config::server_connection::{
    add_all_outcome, add_outcome, has_id, has_name, store_wf, with_topic, BrokerSecurityType,
    ClusterVersion, ServerConnectionView, StoreView, TopicEntryView,
};
use crate::config::connection_xml::{
    file_loads, lemma_masked_record_refusal, lemma_record_comes_back, masked_record,
    masked_records, secrets_fit, unmasked_record, unmasked_records,
};
use crate::text::same_ignoring_ascii_case;
use crate::config::settings::{bool_text, flag_of};
use crate::config::settings_laws::{lemma_bool_text_round_trip, lemma_decimal_round_trip};
use crate::config::xml::{attribute_value, XmlAttributeView, XmlElementView, XmlNodeView};
use crate::error::ConfigError;
use crate::text::{decimal_text, parse_decimal};

verus! {

/// An attribute is looked up in the first of two lists, and in the second
/// where the first has none of its key.
pub proof fn lemma_lookup_in_turn(a: Seq<XmlAttributeView>, b: Seq<XmlAttributeView>, key: Seq<char>)
    ensures
        attribute_value(a + b, key) == (match attribute_value(a, key) {
            Some(value) => Some(value),
            None => attribute_value(b, key),
        }),
    decreases a.len(),
{
    if a.len() == 0 {
        assert(a + b =~= b);
    } else {
        assert((a + b)[0] == a[0]);
        assert((a + b).drop_first() =~= a.drop_first() + b);
        lemma_lookup_in_turn(a.drop_first(), b, key);
    }
}

/// No two of the pairs have the same key.
pub open spec fn keys_differ(pairs: Seq<(Seq<char>, Option<Seq<char>>)>) -> bool {
    forall|i: int, j: int|
        #![trigger pairs[i], pairs[j]]
        0 <= i < j < pairs.len() ==> pairs[i].0 != pairs[j].0
}

/// In the attributes that are written for one pair its key leads to its
/// value, and any other key to nothing.
pub proof fn lemma_single_pair(own: Seq<char>, value: Option<Seq<char>>, key: Seq<char>)
    ensures
        attribute_value(optional_attribute(own, value), key) == (if key == own {
            value
        } else {
            None
        }),
{
    let one = optional_attribute(own, value);
    if one.len() > 0 {
        assert(one.drop_first() =~= Seq::<XmlAttributeView>::empty());
        assert(attribute_value(one.drop_first(), key) is None);
        assert(one[0] == XmlAttributeView { key: own, value: value->0 });
    }
}

/// The attributes that are written for a list of pairs have no attribute of
/// a key that is none of theirs.
pub proof fn lemma_present_lacks(pairs: Seq<(Seq<char>, Option<Seq<char>>)>, key: Seq<char>)
    requires
        forall|i: int| 0 <= i < pairs.len() ==> (#[trigger] pairs[i]).0 != key,
    ensures
        attribute_value(present(pairs), key) is None,
    decreases pairs.len(),
{
    if pairs.len() > 0 {
        let shorter = pairs.drop_last();
        assert forall|i: int| 0 <= i < shorter.len() implies (#[trigger] shorter[i]).0 != key by {
            assert(shorter[i] == pairs[i]);
        }
        lemma_present_lacks(shorter, key);
        lemma_lookup_in_turn(
            present(shorter),
            optional_attribute(pairs.last().0, pairs.last().1),
            key,
        );
        assert(pairs.last() == pairs[pairs.len() - 1]);
        lemma_single_pair(pairs.last().0, pairs.last().1, key);
    }
}

/// Among the attributes that are written for pairs of different keys, each
/// key leads to the value of its pair.
pub proof fn lemma_present_holds(pairs: Seq<(Seq<char>, Option<Seq<char>>)>, at: int)
    requires
        keys_differ(pairs),
        0 <= at < pairs.len(),
    ensures
        attribute_value(present(pairs), pairs[at].0) == pairs[at].1,
    decreases pairs.len(),
{
    let shorter = pairs.drop_last();
    let last = pairs.last();
    let one = optional_attribute(last.0, last.1);
    let key = pairs[at].0;
    lemma_lookup_in_turn(present(shorter), one, key);
    lemma_single_pair(last.0, last.1, key);
    assert(last == pairs[pairs.len() - 1]);
    if at == pairs.len() - 1 {
        assert forall|i: int| 0 <= i < shorter.len() implies (#[trigger] shorter[i]).0 != key by {
            assert(shorter[i] == pairs[i]);
            assert(pairs[i].0 != pairs[at].0);
        }
        lemma_present_lacks(shorter, key);
    } else {
        assert forall|i: int, j: int|
            #![trigger shorter[i], shorter[j]]
            0 <= i < j < shorter.len() implies shorter[i].0 != shorter[j].0 by {
            assert(shorter[i] == pairs[i]);
            assert(shorter[j] == pairs[j]);
        }
        assert(shorter[at] == pairs[at]);
        lemma_present_holds(shorter, at);
        assert(pairs[at].0 != pairs[pairs.len() - 1].0);
    }
}

/// The lengths of the keys of a `connection` element, and the characters
/// by which keys of one length differ.
pub proof fn lemma_connection_keys()
    ensures
        "name"@.len() == 4,
        "host"@.len() == 4,
        "chroot"@.len() == 6,
        "port"@.len() == 4,
        "id"@.len() == 2,
        "group"@.len() == 5,
        "version"@.len() == 7,
        "broker_security_type"@.len() == 20,
        "bootstrap_servers"@.len() == 17,
        "validate_ssl_endpoint_hostname"@.len() == 30,
        "enable_poller"@.len() == 13,
        "truststore_location"@.len() == 19,
        "truststore_password"@.len() == 19,
        "keystore_location"@.len() == 17,
        "keystore_password"@.len() == 17,
        "keystore_privatekey"@.len() == 19,
        "sasl_mechanism"@.len() == 14,
        "sasl_callback"@.len() == 13,
        "sasl_endpoint_token"@.len() == 19,
        "jaas_config"@.len() == 11,
        "schema_registry_endpoint"@.len() == 24,
        "schema_registry_basic_auth"@.len() == 26,
        "schema_registry_ssl_truststore_location"@.len() == 39,
        "schema_registry_ssl_truststore_password"@.len() == 39,
        "schema_registry_ssl_keystore_location"@.len() == 37,
        "schema_registry_ssl_keystore_password"@.len() == 37,
        "schema_registry_ssl_keystore_private_key"@.len() == 40,
        "bootstrap_servers"@[0] == 'b',
        "enable_poller"@[0] == 'e',
        "host"@[0] == 'h',
        "keystore_location"@[0] == 'k',
        "keystore_location"@[9] == 'l',
        "keystore_password"@[0] == 'k',
        "keystore_password"@[9] == 'p',
        "keystore_privatekey"@[0] == 'k',
        "name"@[0] == 'n',
        "port"@[0] == 'p',
        "sasl_callback"@[0] == 's',
        "sasl_endpoint_token"@[0] == 's',
        "schema_registry_ssl_keystore_location"@[29] == 'l',
        "schema_registry_ssl_keystore_password"@[29] == 'p',
        "schema_registry_ssl_truststore_location"@[31] == 'l',
        "schema_registry_ssl_truststore_password"@[31] == 'p',
        "truststore_location"@[0] == 't',
        "truststore_location"@[11] == 'l',
        "truststore_password"@[0] == 't',
        "truststore_password"@[11] == 'p',
{
    reveal_strlit("name");
    reveal_strlit("host");
    reveal_strlit("chroot");
    reveal_strlit("port");
    reveal_strlit("id");
    reveal_strlit("group");
    reveal_strlit("version");
    reveal_strlit("broker_security_type");
    reveal_strlit("bootstrap_servers");
    reveal_strlit("validate_ssl_endpoint_hostname");
    reveal_strlit("enable_poller");
    reveal_strlit("truststore_location");
    reveal_strlit("truststore_password");
    reveal_strlit("keystore_location");
    reveal_strlit("keystore_password");
    reveal_strlit("keystore_privatekey");
    reveal_strlit("sasl_mechanism");
    reveal_strlit("sasl_callback");
    reveal_strlit("sasl_endpoint_token");
    reveal_strlit("jaas_config");
    reveal_strlit("schema_registry_endpoint");
    reveal_strlit("schema_registry_basic_auth");
    reveal_strlit("schema_registry_ssl_truststore_location");
    reveal_strlit("schema_registry_ssl_truststore_password");
    reveal_strlit("schema_registry_ssl_keystore_location");
    reveal_strlit("schema_registry_ssl_keystore_password");
    reveal_strlit("schema_registry_ssl_keystore_private_key");

}

/// The keys under which the fields that may be absent are written are
/// different texts.
pub proof fn lemma_optional_keys_differ(c: ServerConnectionView)
    ensures
        keys_differ(optional_pairs(c)),
        optional_pairs(c).len() == 16,
{
    lemma_connection_keys();
    let pairs = optional_pairs(c);
    assert forall|i: int, j: int|
        #![trigger pairs[i], pairs[j]]
        0 <= i < j < pairs.len() implies pairs[i].0 != pairs[j].0 by {
        lemma_optional_key_at(c, i);
        lemma_optional_key_at(c, j);
    }
}

/// The key of each pair of the fields that may be absent, by its length
/// and by the characters that tell keys of one length apart.
pub proof fn lemma_optional_key_at(c: ServerConnectionView, i: int)
    requires
        0 <= i < 16,
    ensures
        i == 0 ==> optional_pairs(c)[i] == ("truststore_location"@, c.truststore_location),
        i == 1 ==> optional_pairs(c)[i] == ("truststore_password"@, c.truststore_password),
        i == 2 ==> optional_pairs(c)[i] == ("keystore_location"@, c.keystore_location),
        i == 3 ==> optional_pairs(c)[i] == ("keystore_password"@, c.keystore_password),
        i == 4 ==> optional_pairs(c)[i] == ("keystore_privatekey"@, c.keystore_privatekey),
        i == 5 ==> optional_pairs(c)[i] == ("sasl_mechanism"@, c.sasl_mechanism),
        i == 6 ==> optional_pairs(c)[i] == ("sasl_callback"@, c.sasl_callback),
        i == 7 ==> optional_pairs(c)[i] == ("sasl_endpoint_token"@, c.sasl_endpoint_token),
        i == 8 ==> optional_pairs(c)[i] == ("jaas_config"@, c.jaas_config),
        i == 9 ==> optional_pairs(c)[i] == ("schema_registry_endpoint"@, c.schema_registry_endpoint),
        i == 10 ==> optional_pairs(c)[i] == ("schema_registry_basic_auth"@, c.schema_registry_basic_auth),
        i == 11 ==> optional_pairs(c)[i] == ("schema_registry_ssl_truststore_location"@, c.schema_registry_ssl_truststore_location),
        i == 12 ==> optional_pairs(c)[i] == ("schema_registry_ssl_truststore_password"@, c.schema_registry_ssl_truststore_password),
        i == 13 ==> optional_pairs(c)[i] == ("schema_registry_ssl_keystore_location"@, c.schema_registry_ssl_keystore_location),
        i == 14 ==> optional_pairs(c)[i] == ("schema_registry_ssl_keystore_password"@, c.schema_registry_ssl_keystore_password),
        i == 15 ==> optional_pairs(c)[i] == ("schema_registry_ssl_keystore_private_key"@, c.schema_registry_ssl_keystore_private_key),
{
}

/// The attributes that every `connection` element carries lead to the
/// fields of the record, and none of them has a key of the fields that may
/// be absent.
pub proof fn lemma_required_lookups(c: ServerConnectionView)
    ensures
        attribute_value(required_attributes(c), "name"@) == Some(c.name),
        attribute_value(required_attributes(c), "host"@) == Some(c.host),
        attribute_value(required_attributes(c), "chroot"@) == Some(c.chroot),
        attribute_value(required_attributes(c), "port"@) == Some(port_text(c.port)),
        attribute_value(required_attributes(c), "id"@) == Some(decimal_text(c.id as int)),
        attribute_value(required_attributes(c), "group"@) == Some(decimal_text(c.server_group_id as int)),
        attribute_value(required_attributes(c), "version"@) == Some(c.version.name()),
        attribute_value(required_attributes(c), "broker_security_type"@) == Some(c.broker_security_type.name()),
        attribute_value(required_attributes(c), "bootstrap_servers"@) == Some(c.bootstrap_servers),
        attribute_value(required_attributes(c), "validate_ssl_endpoint_hostname"@) == Some(bool_text(c.validate_ssl_endpoint_hostname)),
        attribute_value(required_attributes(c), "enable_poller"@) == Some(bool_text(c.enable_poller)),
        attribute_value(required_attributes(c), "truststore_location"@) is None,
        attribute_value(required_attributes(c), "truststore_password"@) is None,
        attribute_value(required_attributes(c), "keystore_location"@) is None,
        attribute_value(required_attributes(c), "keystore_password"@) is None,
        attribute_value(required_attributes(c), "keystore_privatekey"@) is None,
        attribute_value(required_attributes(c), "sasl_mechanism"@) is None,
        attribute_value(required_attributes(c), "sasl_callback"@) is None,
        attribute_value(required_attributes(c), "sasl_endpoint_token"@) is None,
        attribute_value(required_attributes(c), "jaas_config"@) is None,
        attribute_value(required_attributes(c), "schema_registry_endpoint"@) is None,
        attribute_value(required_attributes(c), "schema_registry_basic_auth"@) is None,
        attribute_value(required_attributes(c), "schema_registry_ssl_truststore_location"@) is None,
        attribute_value(required_attributes(c), "schema_registry_ssl_truststore_password"@) is None,
        attribute_value(required_attributes(c), "schema_registry_ssl_keystore_location"@) is None,
        attribute_value(required_attributes(c), "schema_registry_ssl_keystore_password"@) is None,
        attribute_value(required_attributes(c), "schema_registry_ssl_keystore_private_key"@) is None,
{
    lemma_connection_keys();
    let a0 = required_attributes(c);
    let a1 = a0.drop_first();
    let a2 = a1.drop_first();
    let a3 = a2.drop_first();
    let a4 = a3.drop_first();
    let a5 = a4.drop_first();
    let a6 = a5.drop_first();
    let a7 = a6.drop_first();
    let a8 = a7.drop_first();
    let a9 = a8.drop_first();
    let a10 = a9.drop_first();
    let a11 = a10.drop_first();
    assert(a11 =~= Seq::<XmlAttributeView>::empty());
    assert(a0[0] == a0[0]);
    assert(a1[0] == a0[1]);
    assert(a2[0] == a0[2]);
    assert(a3[0] == a0[3]);
    assert(a4[0] == a0[4]);
    assert(a5[0] == a0[5]);
    assert(a6[0] == a0[6]);
    assert(a7[0] == a0[7]);
    assert(a8[0] == a0[8]);
    assert(a9[0] == a0[9]);
    assert(a10[0] == a0[10]);
    assert(attribute_value(a11, "name"@) is None);
    assert(attribute_value(a11, "host"@) is None);
    assert(attribute_value(a11, "chroot"@) is None);
    assert(attribute_value(a11, "port"@) is None);
    assert(attribute_value(a11, "id"@) is None);
    assert(attribute_value(a11, "group"@) is None);
    assert(attribute_value(a11, "version"@) is None);
    assert(attribute_value(a11, "broker_security_type"@) is None);
    assert(attribute_value(a11, "bootstrap_servers"@) is None);
    assert(attribute_value(a11, "validate_ssl_endpoint_hostname"@) is None);
    assert(attribute_value(a11, "enable_poller"@) is None);
    assert(attribute_value(a11, "truststore_location"@) is None);
    assert(attribute_value(a11, "truststore_password"@) is None);
    assert(attribute_value(a11, "keystore_location"@) is None);
    assert(attribute_value(a11, "keystore_password"@) is None);
    assert(attribute_value(a11, "keystore_privatekey"@) is None);
    assert(attribute_value(a11, "sasl_mechanism"@) is None);
    assert(attribute_value(a11, "sasl_callback"@) is None);
    assert(attribute_value(a11, "sasl_endpoint_token"@) is None);
    assert(attribute_value(a11, "jaas_config"@) is None);
    assert(attribute_value(a11, "schema_registry_endpoint"@) is None);
    assert(attribute_value(a11, "schema_registry_basic_auth"@) is None);
    assert(attribute_value(a11, "schema_registry_ssl_truststore_location"@) is None);
    assert(attribute_value(a11, "schema_registry_ssl_truststore_password"@) is None);
    assert(attribute_value(a11, "schema_registry_ssl_keystore_location"@) is None);
    assert(attribute_value(a11, "schema_registry_ssl_keystore_password"@) is None);
    assert(attribute_value(a11, "schema_registry_ssl_keystore_private_key"@) is None);
    assert(attribute_value(a10, "enable_poller"@) == Some(bool_text(c.enable_poller)));
    assert(attribute_value(a10, "truststore_location"@) is None);
    assert(attribute_value(a10, "truststore_password"@) is None);
    assert(attribute_value(a10, "keystore_location"@) is None);
    assert(attribute_value(a10, "keystore_password"@) is None);
    assert(attribute_value(a10, "keystore_privatekey"@) is None);
    assert(attribute_value(a10, "sasl_mechanism"@) is None);
    assert(attribute_value(a10, "sasl_callback"@) is None);
    assert(attribute_value(a10, "sasl_endpoint_token"@) is None);
    assert(attribute_value(a10, "jaas_config"@) is None);
    assert(attribute_value(a10, "schema_registry_endpoint"@) is None);
    assert(attribute_value(a10, "schema_registry_basic_auth"@) is None);
    assert(attribute_value(a10, "schema_registry_ssl_truststore_location"@) is None);
    assert(attribute_value(a10, "schema_registry_ssl_truststore_password"@) is None);
    assert(attribute_value(a10, "schema_registry_ssl_keystore_location"@) is None);
    assert(attribute_value(a10, "schema_registry_ssl_keystore_password"@) is None);
    assert(attribute_value(a10, "schema_registry_ssl_keystore_private_key"@) is None);
    assert(attribute_value(a9, "validate_ssl_endpoint_hostname"@) == Some(bool_text(c.validate_ssl_endpoint_hostname)));
    assert(attribute_value(a9, "enable_poller"@) == attribute_value(a10, "enable_poller"@));
    assert(attribute_value(a9, "truststore_location"@) is None);
    assert(attribute_value(a9, "truststore_password"@) is None);
    assert(attribute_value(a9, "keystore_location"@) is None);
    assert(attribute_value(a9, "keystore_password"@) is None);
    assert(attribute_value(a9, "keystore_privatekey"@) is None);
    assert(attribute_value(a9, "sasl_mechanism"@) is None);
    assert(attribute_value(a9, "sasl_callback"@) is None);
    assert(attribute_value(a9, "sasl_endpoint_token"@) is None);
    assert(attribute_value(a9, "jaas_config"@) is None);
    assert(attribute_value(a9, "schema_registry_endpoint"@) is None);
    assert(attribute_value(a9, "schema_registry_basic_auth"@) is None);
    assert(attribute_value(a9, "schema_registry_ssl_truststore_location"@) is None);
    assert(attribute_value(a9, "schema_registry_ssl_truststore_password"@) is None);
    assert(attribute_value(a9, "schema_registry_ssl_keystore_location"@) is None);
    assert(attribute_value(a9, "schema_registry_ssl_keystore_password"@) is None);
    assert(attribute_value(a9, "schema_registry_ssl_keystore_private_key"@) is None);
    assert(attribute_value(a8, "bootstrap_servers"@) == Some(c.bootstrap_servers));
    assert(attribute_value(a8, "validate_ssl_endpoint_hostname"@) == attribute_value(a9, "validate_ssl_endpoint_hostname"@));
    assert(attribute_value(a8, "enable_poller"@) == attribute_value(a9, "enable_poller"@));
    assert(attribute_value(a8, "truststore_location"@) is None);
    assert(attribute_value(a8, "truststore_password"@) is None);
    assert(attribute_value(a8, "keystore_location"@) is None);
    assert(attribute_value(a8, "keystore_password"@) is None);
    assert(attribute_value(a8, "keystore_privatekey"@) is None);
    assert(attribute_value(a8, "sasl_mechanism"@) is None);
    assert(attribute_value(a8, "sasl_callback"@) is None);
    assert(attribute_value(a8, "sasl_endpoint_token"@) is None);
    assert(attribute_value(a8, "jaas_config"@) is None);
    assert(attribute_value(a8, "schema_registry_endpoint"@) is None);
    assert(attribute_value(a8, "schema_registry_basic_auth"@) is None);
    assert(attribute_value(a8, "schema_registry_ssl_truststore_location"@) is None);
    assert(attribute_value(a8, "schema_registry_ssl_truststore_password"@) is None);
    assert(attribute_value(a8, "schema_registry_ssl_keystore_location"@) is None);
    assert(attribute_value(a8, "schema_registry_ssl_keystore_password"@) is None);
    assert(attribute_value(a8, "schema_registry_ssl_keystore_private_key"@) is None);
    assert(attribute_value(a7, "broker_security_type"@) == Some(c.broker_security_type.name()));
    assert(attribute_value(a7, "bootstrap_servers"@) == attribute_value(a8, "bootstrap_servers"@));
    assert(attribute_value(a7, "validate_ssl_endpoint_hostname"@) == attribute_value(a8, "validate_ssl_endpoint_hostname"@));
    assert(attribute_value(a7, "enable_poller"@) == attribute_value(a8, "enable_poller"@));
    assert(attribute_value(a7, "truststore_location"@) is None);
    assert(attribute_value(a7, "truststore_password"@) is None);
    assert(attribute_value(a7, "keystore_location"@) is None);
    assert(attribute_value(a7, "keystore_password"@) is None);
    assert(attribute_value(a7, "keystore_privatekey"@) is None);
    assert(attribute_value(a7, "sasl_mechanism"@) is None);
    assert(attribute_value(a7, "sasl_callback"@) is None);
    assert(attribute_value(a7, "sasl_endpoint_token"@) is None);
    assert(attribute_value(a7, "jaas_config"@) is None);
    assert(attribute_value(a7, "schema_registry_endpoint"@) is None);
    assert(attribute_value(a7, "schema_registry_basic_auth"@) is None);
    assert(attribute_value(a7, "schema_registry_ssl_truststore_location"@) is None);
    assert(attribute_value(a7, "schema_registry_ssl_truststore_password"@) is None);
    assert(attribute_value(a7, "schema_registry_ssl_keystore_location"@) is None);
    assert(attribute_value(a7, "schema_registry_ssl_keystore_password"@) is None);
    assert(attribute_value(a7, "schema_registry_ssl_keystore_private_key"@) is None);
    assert(attribute_value(a6, "version"@) == Some(c.version.name()));
    assert(attribute_value(a6, "broker_security_type"@) == attribute_value(a7, "broker_security_type"@));
    assert(attribute_value(a6, "bootstrap_servers"@) == attribute_value(a7, "bootstrap_servers"@));
    assert(attribute_value(a6, "validate_ssl_endpoint_hostname"@) == attribute_value(a7, "validate_ssl_endpoint_hostname"@));
    assert(attribute_value(a6, "enable_poller"@) == attribute_value(a7, "enable_poller"@));
    assert(attribute_value(a6, "truststore_location"@) is None);
    assert(attribute_value(a6, "truststore_password"@) is None);
    assert(attribute_value(a6, "keystore_location"@) is None);
    assert(attribute_value(a6, "keystore_password"@) is None);
    assert(attribute_value(a6, "keystore_privatekey"@) is None);
    assert(attribute_value(a6, "sasl_mechanism"@) is None);
    assert(attribute_value(a6, "sasl_callback"@) is None);
    assert(attribute_value(a6, "sasl_endpoint_token"@) is None);
    assert(attribute_value(a6, "jaas_config"@) is None);
    assert(attribute_value(a6, "schema_registry_endpoint"@) is None);
    assert(attribute_value(a6, "schema_registry_basic_auth"@) is None);
    assert(attribute_value(a6, "schema_registry_ssl_truststore_location"@) is None);
    assert(attribute_value(a6, "schema_registry_ssl_truststore_password"@) is None);
    assert(attribute_value(a6, "schema_registry_ssl_keystore_location"@) is None);
    assert(attribute_value(a6, "schema_registry_ssl_keystore_password"@) is None);
    assert(attribute_value(a6, "schema_registry_ssl_keystore_private_key"@) is None);
    assert(attribute_value(a5, "group"@) == Some(decimal_text(c.server_group_id as int)));
    assert(attribute_value(a5, "version"@) == attribute_value(a6, "version"@));
    assert(attribute_value(a5, "broker_security_type"@) == attribute_value(a6, "broker_security_type"@));
    assert(attribute_value(a5, "bootstrap_servers"@) == attribute_value(a6, "bootstrap_servers"@));
    assert(attribute_value(a5, "validate_ssl_endpoint_hostname"@) == attribute_value(a6, "validate_ssl_endpoint_hostname"@));
    assert(attribute_value(a5, "enable_poller"@) == attribute_value(a6, "enable_poller"@));
    assert(attribute_value(a5, "truststore_location"@) is None);
    assert(attribute_value(a5, "truststore_password"@) is None);
    assert(attribute_value(a5, "keystore_location"@) is None);
    assert(attribute_value(a5, "keystore_password"@) is None);
    assert(attribute_value(a5, "keystore_privatekey"@) is None);
    assert(attribute_value(a5, "sasl_mechanism"@) is None);
    assert(attribute_value(a5, "sasl_callback"@) is None);
    assert(attribute_value(a5, "sasl_endpoint_token"@) is None);
    assert(attribute_value(a5, "jaas_config"@) is None);
    assert(attribute_value(a5, "schema_registry_endpoint"@) is None);
    assert(attribute_value(a5, "schema_registry_basic_auth"@) is None);
    assert(attribute_value(a5, "schema_registry_ssl_truststore_location"@) is None);
    assert(attribute_value(a5, "schema_registry_ssl_truststore_password"@) is None);
    assert(attribute_value(a5, "schema_registry_ssl_keystore_location"@) is None);
    assert(attribute_value(a5, "schema_registry_ssl_keystore_password"@) is None);
    assert(attribute_value(a5, "schema_registry_ssl_keystore_private_key"@) is None);
    assert(attribute_value(a4, "id"@) == Some(decimal_text(c.id as int)));
    assert(attribute_value(a4, "group"@) == attribute_value(a5, "group"@));
    assert(attribute_value(a4, "version"@) == attribute_value(a5, "version"@));
    assert(attribute_value(a4, "broker_security_type"@) == attribute_value(a5, "broker_security_type"@));
    assert(attribute_value(a4, "bootstrap_servers"@) == attribute_value(a5, "bootstrap_servers"@));
    assert(attribute_value(a4, "validate_ssl_endpoint_hostname"@) == attribute_value(a5, "validate_ssl_endpoint_hostname"@));
    assert(attribute_value(a4, "enable_poller"@) == attribute_value(a5, "enable_poller"@));
    assert(attribute_value(a4, "truststore_location"@) is None);
    assert(attribute_value(a4, "truststore_password"@) is None);
    assert(attribute_value(a4, "keystore_location"@) is None);
    assert(attribute_value(a4, "keystore_password"@) is None);
    assert(attribute_value(a4, "keystore_privatekey"@) is None);
    assert(attribute_value(a4, "sasl_mechanism"@) is None);
    assert(attribute_value(a4, "sasl_callback"@) is None);
    assert(attribute_value(a4, "sasl_endpoint_token"@) is None);
    assert(attribute_value(a4, "jaas_config"@) is None);
    assert(attribute_value(a4, "schema_registry_endpoint"@) is None);
    assert(attribute_value(a4, "schema_registry_basic_auth"@) is None);
    assert(attribute_value(a4, "schema_registry_ssl_truststore_location"@) is None);
    assert(attribute_value(a4, "schema_registry_ssl_truststore_password"@) is None);
    assert(attribute_value(a4, "schema_registry_ssl_keystore_location"@) is None);
    assert(attribute_value(a4, "schema_registry_ssl_keystore_password"@) is None);
    assert(attribute_value(a4, "schema_registry_ssl_keystore_private_key"@) is None);
    assert(attribute_value(a3, "port"@) == Some(port_text(c.port)));
    assert(attribute_value(a3, "id"@) == attribute_value(a4, "id"@));
    assert(attribute_value(a3, "group"@) == attribute_value(a4, "group"@));
    assert(attribute_value(a3, "version"@) == attribute_value(a4, "version"@));
    assert(attribute_value(a3, "broker_security_type"@) == attribute_value(a4, "broker_security_type"@));
    assert(attribute_value(a3, "bootstrap_servers"@) == attribute_value(a4, "bootstrap_servers"@));
    assert(attribute_value(a3, "validate_ssl_endpoint_hostname"@) == attribute_value(a4, "validate_ssl_endpoint_hostname"@));
    assert(attribute_value(a3, "enable_poller"@) == attribute_value(a4, "enable_poller"@));
    assert(attribute_value(a3, "truststore_location"@) is None);
    assert(attribute_value(a3, "truststore_password"@) is None);
    assert(attribute_value(a3, "keystore_location"@) is None);
    assert(attribute_value(a3, "keystore_password"@) is None);
    assert(attribute_value(a3, "keystore_privatekey"@) is None);
    assert(attribute_value(a3, "sasl_mechanism"@) is None);
    assert(attribute_value(a3, "sasl_callback"@) is None);
    assert(attribute_value(a3, "sasl_endpoint_token"@) is None);
    assert(attribute_value(a3, "jaas_config"@) is None);
    assert(attribute_value(a3, "schema_registry_endpoint"@) is None);
    assert(attribute_value(a3, "schema_registry_basic_auth"@) is None);
    assert(attribute_value(a3, "schema_registry_ssl_truststore_location"@) is None);
    assert(attribute_value(a3, "schema_registry_ssl_truststore_password"@) is None);
    assert(attribute_value(a3, "schema_registry_ssl_keystore_location"@) is None);
    assert(attribute_value(a3, "schema_registry_ssl_keystore_password"@) is None);
    assert(attribute_value(a3, "schema_registry_ssl_keystore_private_key"@) is None);
    assert(attribute_value(a2, "chroot"@) == Some(c.chroot));
    assert(attribute_value(a2, "port"@) == attribute_value(a3, "port"@));
    assert(attribute_value(a2, "id"@) == attribute_value(a3, "id"@));
    assert(attribute_value(a2, "group"@) == attribute_value(a3, "group"@));
    assert(attribute_value(a2, "version"@) == attribute_value(a3, "version"@));
    assert(attribute_value(a2, "broker_security_type"@) == attribute_value(a3, "broker_security_type"@));
    assert(attribute_value(a2, "bootstrap_servers"@) == attribute_value(a3, "bootstrap_servers"@));
    assert(attribute_value(a2, "validate_ssl_endpoint_hostname"@) == attribute_value(a3, "validate_ssl_endpoint_hostname"@));
    assert(attribute_value(a2, "enable_poller"@) == attribute_value(a3, "enable_poller"@));
    assert(attribute_value(a2, "truststore_location"@) is None);
    assert(attribute_value(a2, "truststore_password"@) is None);
    assert(attribute_value(a2, "keystore_location"@) is None);
    assert(attribute_value(a2, "keystore_password"@) is None);
    assert(attribute_value(a2, "keystore_privatekey"@) is None);
    assert(attribute_value(a2, "sasl_mechanism"@) is None);
    assert(attribute_value(a2, "sasl_callback"@) is None);
    assert(attribute_value(a2, "sasl_endpoint_token"@) is None);
    assert(attribute_value(a2, "jaas_config"@) is None);
    assert(attribute_value(a2, "schema_registry_endpoint"@) is None);
    assert(attribute_value(a2, "schema_registry_basic_auth"@) is None);
    assert(attribute_value(a2, "schema_registry_ssl_truststore_location"@) is None);
    assert(attribute_value(a2, "schema_registry_ssl_truststore_password"@) is None);
    assert(attribute_value(a2, "schema_registry_ssl_keystore_location"@) is None);
    assert(attribute_value(a2, "schema_registry_ssl_keystore_password"@) is None);
    assert(attribute_value(a2, "schema_registry_ssl_keystore_private_key"@) is None);
    assert(attribute_value(a1, "host"@) == Some(c.host));
    assert(attribute_value(a1, "chroot"@) == attribute_value(a2, "chroot"@));
    assert(attribute_value(a1, "port"@) == attribute_value(a2, "port"@));
    assert(attribute_value(a1, "id"@) == attribute_value(a2, "id"@));
    assert(attribute_value(a1, "group"@) == attribute_value(a2, "group"@));
    assert(attribute_value(a1, "version"@) == attribute_value(a2, "version"@));
    assert(attribute_value(a1, "broker_security_type"@) == attribute_value(a2, "broker_security_type"@));
    assert(attribute_value(a1, "bootstrap_servers"@) == attribute_value(a2, "bootstrap_servers"@));
    assert(attribute_value(a1, "validate_ssl_endpoint_hostname"@) == attribute_value(a2, "validate_ssl_endpoint_hostname"@));
    assert(attribute_value(a1, "enable_poller"@) == attribute_value(a2, "enable_poller"@));
    assert(attribute_value(a1, "truststore_location"@) is None);
    assert(attribute_value(a1, "truststore_password"@) is None);
    assert(attribute_value(a1, "keystore_location"@) is None);
    assert(attribute_value(a1, "keystore_password"@) is None);
    assert(attribute_value(a1, "keystore_privatekey"@) is None);
    assert(attribute_value(a1, "sasl_mechanism"@) is None);
    assert(attribute_value(a1, "sasl_callback"@) is None);
    assert(attribute_value(a1, "sasl_endpoint_token"@) is None);
    assert(attribute_value(a1, "jaas_config"@) is None);
    assert(attribute_value(a1, "schema_registry_endpoint"@) is None);
    assert(attribute_value(a1, "schema_registry_basic_auth"@) is None);
    assert(attribute_value(a1, "schema_registry_ssl_truststore_location"@) is None);
    assert(attribute_value(a1, "schema_registry_ssl_truststore_password"@) is None);
    assert(attribute_value(a1, "schema_registry_ssl_keystore_location"@) is None);
    assert(attribute_value(a1, "schema_registry_ssl_keystore_password"@) is None);
    assert(attribute_value(a1, "schema_registry_ssl_keystore_private_key"@) is None);
    assert(attribute_value(a0, "name"@) == Some(c.name));
    assert(attribute_value(a0, "host"@) == attribute_value(a1, "host"@));
    assert(attribute_value(a0, "chroot"@) == attribute_value(a1, "chroot"@));
    assert(attribute_value(a0, "port"@) == attribute_value(a1, "port"@));
    assert(attribute_value(a0, "id"@) == attribute_value(a1, "id"@));
    assert(attribute_value(a0, "group"@) == attribute_value(a1, "group"@));
    assert(attribute_value(a0, "version"@) == attribute_value(a1, "version"@));
    assert(attribute_value(a0, "broker_security_type"@) == attribute_value(a1, "broker_security_type"@));
    assert(attribute_value(a0, "bootstrap_servers"@) == attribute_value(a1, "bootstrap_servers"@));
    assert(attribute_value(a0, "validate_ssl_endpoint_hostname"@) == attribute_value(a1, "validate_ssl_endpoint_hostname"@));
    assert(attribute_value(a0, "enable_poller"@) == attribute_value(a1, "enable_poller"@));
    assert(attribute_value(a0, "truststore_location"@) is None);
    assert(attribute_value(a0, "truststore_password"@) is None);
    assert(attribute_value(a0, "keystore_location"@) is None);
    assert(attribute_value(a0, "keystore_password"@) is None);
    assert(attribute_value(a0, "keystore_privatekey"@) is None);
    assert(attribute_value(a0, "sasl_mechanism"@) is None);
    assert(attribute_value(a0, "sasl_callback"@) is None);
    assert(attribute_value(a0, "sasl_endpoint_token"@) is None);
    assert(attribute_value(a0, "jaas_config"@) is None);
    assert(attribute_value(a0, "schema_registry_endpoint"@) is None);
    assert(attribute_value(a0, "schema_registry_basic_auth"@) is None);
    assert(attribute_value(a0, "schema_registry_ssl_truststore_location"@) is None);
    assert(attribute_value(a0, "schema_registry_ssl_truststore_password"@) is None);
    assert(attribute_value(a0, "schema_registry_ssl_keystore_location"@) is None);
    assert(attribute_value(a0, "schema_registry_ssl_keystore_password"@) is None);
    assert(attribute_value(a0, "schema_registry_ssl_keystore_private_key"@) is None);
}

/// The attributes of a `connection` element lead to the fields of the
/// record that may be absent.
pub proof fn lemma_optional_lookups(c: ServerConnectionView)
    ensures
        attribute_value(connection_element(c).attributes, "truststore_location"@) == c.truststore_location,
        attribute_value(connection_element(c).attributes, "truststore_password"@) == c.truststore_password,
        attribute_value(connection_element(c).attributes, "keystore_location"@) == c.keystore_location,
        attribute_value(connection_element(c).attributes, "keystore_password"@) == c.keystore_password,
        attribute_value(connection_element(c).attributes, "keystore_privatekey"@) == c.keystore_privatekey,
        attribute_value(connection_element(c).attributes, "sasl_mechanism"@) == c.sasl_mechanism,
        attribute_value(connection_element(c).attributes, "sasl_callback"@) == c.sasl_callback,
        attribute_value(connection_element(c).attributes, "sasl_endpoint_token"@) == c.sasl_endpoint_token,
        attribute_value(connection_element(c).attributes, "jaas_config"@) == c.jaas_config,
        attribute_value(connection_element(c).attributes, "schema_registry_endpoint"@) == c.schema_registry_endpoint,
        attribute_value(connection_element(c).attributes, "schema_registry_basic_auth"@) == c.schema_registry_basic_auth,
        attribute_value(connection_element(c).attributes, "schema_registry_ssl_truststore_location"@) == c.schema_registry_ssl_truststore_location,
        attribute_value(connection_element(c).attributes, "schema_registry_ssl_truststore_password"@) == c.schema_registry_ssl_truststore_password,
        attribute_value(connection_element(c).attributes, "schema_registry_ssl_keystore_location"@) == c.schema_registry_ssl_keystore_location,
        attribute_value(connection_element(c).attributes, "schema_registry_ssl_keystore_password"@) == c.schema_registry_ssl_keystore_password,
        attribute_value(connection_element(c).attributes, "schema_registry_ssl_keystore_private_key"@) == c.schema_registry_ssl_keystore_private_key,
        attribute_value(connection_element(c).attributes, "name"@) == Some(c.name),
        attribute_value(connection_element(c).attributes, "host"@) == Some(c.host),
        attribute_value(connection_element(c).attributes, "chroot"@) == Some(c.chroot),
        attribute_value(connection_element(c).attributes, "port"@) == Some(port_text(c.port)),
        attribute_value(connection_element(c).attributes, "id"@) == Some(decimal_text(c.id as int)),
        attribute_value(connection_element(c).attributes, "group"@) == Some(decimal_text(c.server_group_id as int)),
        attribute_value(connection_element(c).attributes, "version"@) == Some(c.version.name()),
        attribute_value(connection_element(c).attributes, "broker_security_type"@) == Some(c.broker_security_type.name()),
        attribute_value(connection_element(c).attributes, "bootstrap_servers"@) == Some(c.bootstrap_servers),
        attribute_value(connection_element(c).attributes, "validate_ssl_endpoint_hostname"@) == Some(bool_text(c.validate_ssl_endpoint_hostname)),
        attribute_value(connection_element(c).attributes, "enable_poller"@) == Some(bool_text(c.enable_poller)),
{
    lemma_required_lookups(c);
    lemma_optional_keys_differ(c);
    let pairs = optional_pairs(c);
    lemma_optional_key_at(c, 0);
    lemma_present_holds(pairs, 0);
    lemma_lookup_in_turn(required_attributes(c), optional_attributes(c), "truststore_location"@);
    lemma_optional_key_at(c, 1);
    lemma_present_holds(pairs, 1);
    lemma_lookup_in_turn(required_attributes(c), optional_attributes(c), "truststore_password"@);
    lemma_optional_key_at(c, 2);
    lemma_present_holds(pairs, 2);
    lemma_lookup_in_turn(required_attributes(c), optional_attributes(c), "keystore_location"@);
    lemma_optional_key_at(c, 3);
    lemma_present_holds(pairs, 3);
    lemma_lookup_in_turn(required_attributes(c), optional_attributes(c), "keystore_password"@);
    lemma_optional_key_at(c, 4);
    lemma_present_holds(pairs, 4);
    lemma_lookup_in_turn(required_attributes(c), optional_attributes(c), "keystore_privatekey"@);
    lemma_optional_key_at(c, 5);
    lemma_present_holds(pairs, 5);
    lemma_lookup_in_turn(required_attributes(c), optional_attributes(c), "sasl_mechanism"@);
    lemma_optional_key_at(c, 6);
    lemma_present_holds(pairs, 6);
    lemma_lookup_in_turn(required_attributes(c), optional_attributes(c), "sasl_callback"@);
    lemma_optional_key_at(c, 7);
    lemma_present_holds(pairs, 7);
    lemma_lookup_in_turn(required_attributes(c), optional_attributes(c), "sasl_endpoint_token"@);
    lemma_optional_key_at(c, 8);
    lemma_present_holds(pairs, 8);
    lemma_lookup_in_turn(required_attributes(c), optional_attributes(c), "jaas_config"@);
    lemma_optional_key_at(c, 9);
    lemma_present_holds(pairs, 9);
    lemma_lookup_in_turn(required_attributes(c), optional_attributes(c), "schema_registry_endpoint"@);
    lemma_optional_key_at(c, 10);
    lemma_present_holds(pairs, 10);
    lemma_lookup_in_turn(required_attributes(c), optional_attributes(c), "schema_registry_basic_auth"@);
    lemma_optional_key_at(c, 11);
    lemma_present_holds(pairs, 11);
    lemma_lookup_in_turn(required_attributes(c), optional_attributes(c), "schema_registry_ssl_truststore_location"@);
    lemma_optional_key_at(c, 12);
    lemma_present_holds(pairs, 12);
    lemma_lookup_in_turn(required_attributes(c), optional_attributes(c), "schema_registry_ssl_truststore_password"@);
    lemma_optional_key_at(c, 13);
    lemma_present_holds(pairs, 13);
    lemma_lookup_in_turn(required_attributes(c), optional_attributes(c), "schema_registry_ssl_keystore_location"@);
    lemma_optional_key_at(c, 14);
    lemma_present_holds(pairs, 14);
    lemma_lookup_in_turn(required_attributes(c), optional_attributes(c), "schema_registry_ssl_keystore_password"@);
    lemma_optional_key_at(c, 15);
    lemma_present_holds(pairs, 15);
    lemma_lookup_in_turn(required_attributes(c), optional_attributes(c), "schema_registry_ssl_keystore_private_key"@);
    lemma_lookup_in_turn(required_attributes(c), optional_attributes(c), "name"@);
    lemma_lookup_in_turn(required_attributes(c), optional_attributes(c), "host"@);
    lemma_lookup_in_turn(required_attributes(c), optional_attributes(c), "chroot"@);
    lemma_lookup_in_turn(required_attributes(c), optional_attributes(c), "port"@);
    lemma_lookup_in_turn(required_attributes(c), optional_attributes(c), "id"@);
    lemma_lookup_in_turn(required_attributes(c), optional_attributes(c), "group"@);
    lemma_lookup_in_turn(required_attributes(c), optional_attributes(c), "version"@);
    lemma_lookup_in_turn(required_attributes(c), optional_attributes(c), "broker_security_type"@);
    lemma_lookup_in_turn(required_attributes(c), optional_attributes(c), "bootstrap_servers"@);
    lemma_lookup_in_turn(required_attributes(c), optional_attributes(c), "validate_ssl_endpoint_hostname"@);
    lemma_lookup_in_turn(required_attributes(c), optional_attributes(c), "enable_poller"@);
}

/// A record as it is read back from its own element: the record itself,
/// but that its version counts as 1.0 where it is not the latest, and that
/// its folders and topics are not in the element.
pub open spec fn as_read_back(c: ServerConnectionView) -> ServerConnectionView {
    ServerConnectionView {
        version: if c.version == ClusterVersion::LATEST {
            ClusterVersion::LATEST
        } else {
            ClusterVersion::VERSION_1_0
        },
        folders: Seq::empty(),
        topic_configs: Seq::empty(),
        ..c
    }
}

/// The name of a security mode is read back as the mode, and the name of
/// a version as the version it is written as.
pub proof fn lemma_names_round_trip(mode: BrokerSecurityType, version: ClusterVersion)
    ensures
        BrokerSecurityType::named(mode.name()) == Some(mode),
        ClusterVersion::named(version.name()) == (if version == ClusterVersion::LATEST {
            ClusterVersion::LATEST
        } else {
            ClusterVersion::VERSION_1_0
        }),
{
    reveal_strlit("PLAINTEXT");
    reveal_strlit("SSL");
    reveal_strlit("SASL_PLAINTEXT");
    reveal_strlit("SASL_SSL");
    reveal_strlit("LATEST");
    reveal_strlit("1.0.0");
    reveal_strlit("VERSION_1_0_0");
    assert("PLAINTEXT"@.len() == 9);
    assert("SSL"@.len() == 3);
    assert("SASL_PLAINTEXT"@.len() == 14);
    assert("SASL_SSL"@.len() == 8);
    assert("LATEST"@.len() == 6);
    assert("1.0.0"@.len() == 5);
    assert("VERSION_1_0_0"@.len() == 13);
}

/// A record that is written as an element, each field as it is, is read
/// back from the element as the record it was.
pub proof fn lemma_connection_round_trip(c: ServerConnectionView)
    ensures
        parse_connection(connection_element(c)) == Ok::<ServerConnectionView, ConfigError>(
            as_read_back(c),
        ),
{
    let a = connection_element(c).attributes;
    lemma_required_lookups(c);
    lemma_optional_lookups(c);
    lemma_names_round_trip(c.broker_security_type, c.version);
    lemma_decimal_round_trip(c.id as int, i64::MIN as int, i64::MAX as int);
    lemma_decimal_round_trip(c.server_group_id as int, i64::MIN as int, i64::MAX as int);
    match c.port {
        Some(port) => {
            lemma_decimal_round_trip(port as int, i64::MIN as int, i64::MAX as int);
        },
        None => {
            assert(parse_decimal(Seq::<char>::empty(), i64::MIN as int, i64::MAX as int) is None);
        },
    }
    lemma_bool_text_round_trip(c.validate_ssl_endpoint_hostname);
    lemma_bool_text_round_trip(c.enable_poller);
    let back = parse_connection(connection_element(c))->Ok_0;
    assert(security_of(a) == Some(c.broker_security_type));
    assert(version_of(a) == as_read_back(c).version);
    assert(number_or(a, "id"@, 0) == c.id);
    assert(number_or(a, "group"@, 1) == c.server_group_id);
    assert(number_of(a, "port"@) == c.port);
    assert(flag_of(a, "validate_ssl_endpoint_hostname"@, true) == c.validate_ssl_endpoint_hostname);
    assert(flag_of(a, "enable_poller"@, true) == c.enable_poller);
}

/// Reading pieces after other pieces is reading them from the state that
/// the others left.
pub proof fn lemma_run_in_turn(state: LoadStateView, first: Seq<XmlNodeView>, second: Seq<XmlNodeView>)
    ensures
        run(state, first + second) == run(run(state, first), second),
    decreases second.len(),
{
    if second.len() == 0 {
        assert(first + second =~= first);
    } else {
        assert((first + second).drop_last() =~= first + second.drop_last());
        assert((first + second).last() == second.last());
        lemma_run_in_turn(state, first, second.drop_last());
    }
}

/// Reading one piece is taking one step.
pub proof fn lemma_run_one(state: LoadStateView, node: XmlNodeView)
    ensures
        run(state, seq![node]) == step(state, node),
{
    assert(seq![node].drop_last() =~= Seq::<XmlNodeView>::empty());
    assert(seq![node].last() == node);
    assert(run(state, Seq::<XmlNodeView>::empty()) == state);
}

/// The names of the elements of a connections file are different texts.
pub proof fn lemma_element_names()
    ensures
        "connections"@.len() == 11,
        "connection"@.len() == 10,
        "folders"@.len() == 7,
        "topics"@.len() == 6,
        "folder"@.len() == 6,
        "topic"@.len() == 5,
        "name"@.len() == 4,
        "topics"@[0] == 't',
        "folder"@[0] == 'f',
{
    reveal_strlit("connections");
    reveal_strlit("connection");
    reveal_strlit("folders");
    reveal_strlit("topics");
    reveal_strlit("folder");
    reveal_strlit("topic");
    reveal_strlit("name");
}

/// The `folder` element of a folder.
pub open spec fn folder_element(folder: Seq<char>) -> XmlElementView {
    XmlElementView {
        name: "folder"@,
        attributes: seq![XmlAttributeView { key: "name"@, value: folder }],
    }
}

/// A state with one more folder in the record that is being read.
pub open spec fn with_folders(state: LoadStateView, folders: Seq<Seq<char>>) -> LoadStateView {
    LoadStateView {
        current: Some(
            ServerConnectionView {
                folders: state.current->0.folders + folders,
                ..state.current->0
            },
        ),
        ..state
    }
}

/// A state with more topics in the record that is being read.
pub open spec fn with_topics(state: LoadStateView, topics: Seq<TopicEntryView>) -> LoadStateView {
    LoadStateView {
        current: Some(
            ServerConnectionView {
                topic_configs: state.current->0.topic_configs + topics,
                ..state.current->0
            },
        ),
        ..state
    }
}

/// Reading the `folder` elements of a record adds its folders to the
/// record that is being read.
pub proof fn lemma_folders_run(state: LoadStateView, folders: Seq<Seq<char>>, upto: int)
    requires
        state.in_folders,
        state.current is Some,
        0 <= upto <= folders.len(),
    ensures
        run(state, folder_nodes(folders).take(upto)) == with_folders(state, folders.take(upto)),
    decreases upto,
{
    lemma_element_names();
    let nodes = folder_nodes(folders);
    if upto == 0 {
        assert(nodes.take(0) =~= Seq::<XmlNodeView>::empty());
        assert(state.current->0.folders + folders.take(0) =~= state.current->0.folders);
        assert(with_folders(state, folders.take(0)) == state);
    } else {
        lemma_folders_run(state, folders, upto - 1);
        let before = with_folders(state, folders.take(upto - 1));
        assert(nodes.take(upto).drop_last() =~= nodes.take(upto - 1));
        assert(nodes.take(upto).last() == XmlNodeView::Empty(folder_element(folders[upto - 1])));
        let element = folder_element(folders[upto - 1]);
        assert(element.attributes.drop_first() =~= Seq::<XmlAttributeView>::empty());
        assert(attribute_value(element.attributes, "name"@) == Some(folders[upto - 1]));
        let opened = open_tag(before, element);
        assert(before.current->0.folders.push(folders[upto - 1]) =~= state.current->0.folders
            + folders.take(upto));
        assert(opened == with_folders(state, folders.take(upto)));
        assert(close_tag(opened, "folder"@) == opened);
    }
}

/// The keys under which the fields of a topic's configuration are written
/// are different texts, and none of them is `name`.
pub proof fn lemma_topic_keys()
    ensures
        "name"@.len() == 4,
        "key_decoder"@.len() == 11,
        "message_decoder"@.len() == 15,
        "string_type"@.len() == 11,
        "header_type"@.len() == 11,
        "offset_request_type"@.len() == 19,
        "parent_folder"@.len() == 13,
        "key_decoder"@[0] == 'k',
        "string_type"@[0] == 's',
        "header_type"@[0] == 'h',
{
    reveal_strlit("name");
    reveal_strlit("key_decoder");
    reveal_strlit("message_decoder");
    reveal_strlit("string_type");
    reveal_strlit("header_type");
    reveal_strlit("offset_request_type");
    reveal_strlit("parent_folder");
}

/// A topic entry that is written as an element is read back from it as
/// the entry it was.
pub proof fn lemma_topic_round_trip(topic: TopicEntryView)
    ensures
        attribute_value(topic_element(topic).attributes, "name"@) == Some(topic.name),
        parse_topic(topic.name, topic_element(topic).attributes) == topic,
{
    lemma_topic_keys();
    let head = seq![XmlAttributeView { key: "name"@, value: topic.name }];
    let pairs = topic_pairs(topic.config);
    let rest = present(pairs);
    assert(head.drop_first() =~= Seq::<XmlAttributeView>::empty());
    assert forall|i: int, j: int|
        #![trigger pairs[i], pairs[j]]
        0 <= i < j < pairs.len() implies pairs[i].0 != pairs[j].0 by {}
    lemma_lookup_in_turn(head, rest, "name"@);
    lemma_lookup_in_turn(head, rest, "key_decoder"@);
    lemma_lookup_in_turn(head, rest, "message_decoder"@);
    lemma_lookup_in_turn(head, rest, "string_type"@);
    lemma_lookup_in_turn(head, rest, "header_type"@);
    lemma_lookup_in_turn(head, rest, "offset_request_type"@);
    lemma_lookup_in_turn(head, rest, "parent_folder"@);
    assert(head =~= optional_attribute("name"@, Some(topic.name)));
    lemma_single_pair("name"@, Some(topic.name), "name"@);
    lemma_single_pair("name"@, Some(topic.name), "key_decoder"@);
    lemma_single_pair("name"@, Some(topic.name), "message_decoder"@);
    lemma_single_pair("name"@, Some(topic.name), "string_type"@);
    lemma_single_pair("name"@, Some(topic.name), "header_type"@);
    lemma_single_pair("name"@, Some(topic.name), "offset_request_type"@);
    lemma_single_pair("name"@, Some(topic.name), "parent_folder"@);
    lemma_present_holds(pairs, 0);
    lemma_present_holds(pairs, 1);
    lemma_present_holds(pairs, 2);
    lemma_present_holds(pairs, 3);
    lemma_present_holds(pairs, 4);
    lemma_present_holds(pairs, 5);
}

/// A topic entry whose name no entry has comes last among the entries.
pub proof fn lemma_new_topic_comes_last(topics: Seq<TopicEntryView>, fresh: TopicEntryView)
    requires
        forall|i: int| 0 <= i < topics.len() ==> (#[trigger] topics[i]).name != fresh.name,
    ensures
        with_topic(topics, fresh) == topics.push(fresh),
    decreases topics.len(),
{
    if topics.len() == 0 {
        assert(topics.push(fresh) =~= seq![fresh]);
    } else {
        assert(topics[0].name != fresh.name);
        let rest = topics.drop_first();
        assert forall|i: int| 0 <= i < rest.len() implies (#[trigger] rest[i]).name
            != fresh.name by {
            assert(rest[i] == topics[i + 1]);
        }
        lemma_new_topic_comes_last(rest, fresh);
        assert(seq![topics[0]] + rest.push(fresh) =~= topics.push(fresh));
    }
}

/// No two of the topic entries have the same name.
pub open spec fn names_differ(topics: Seq<TopicEntryView>) -> bool {
    forall|i: int, j: int|
        #![trigger topics[i], topics[j]]
        0 <= i < j < topics.len() ==> topics[i].name != topics[j].name
}

/// Reading the `topic` elements of a record adds its topic entries to the
/// record that is being read, where that has none yet.
pub proof fn lemma_topics_run(state: LoadStateView, topics: Seq<TopicEntryView>, upto: int)
    requires
        state.in_topics,
        !state.in_folders,
        state.current is Some,
        state.current->0.topic_configs.len() == 0,
        names_differ(topics),
        0 <= upto <= topics.len(),
    ensures
        run(state, topic_nodes(topics).take(upto)) == with_topics(state, topics.take(upto)),
    decreases upto,
{
    lemma_element_names();
    let nodes = topic_nodes(topics);
    if upto == 0 {
        assert(nodes.take(0) =~= Seq::<XmlNodeView>::empty());
        assert(state.current->0.topic_configs + topics.take(0) =~= state.current->0.topic_configs);
        assert(with_topics(state, topics.take(0)) == state);
    } else {
        lemma_topics_run(state, topics, upto - 1);
        let before = with_topics(state, topics.take(upto - 1));
        let topic = topics[upto - 1];
        assert(nodes.take(upto).drop_last() =~= nodes.take(upto - 1));
        assert(nodes.take(upto).last() == XmlNodeView::Empty(topic_element(topic)));
        lemma_topic_round_trip(topic);
        let so_far = before.current->0.topic_configs;
        assert(so_far =~= topics.take(upto - 1));
        assert forall|i: int| 0 <= i < so_far.len() implies (#[trigger] so_far[i]).name
            != topic.name by {
            assert(so_far[i] == topics[i]);
            assert(topics[i].name != topics[upto - 1].name);
        }
        lemma_new_topic_comes_last(so_far, topic);
        let opened = open_tag(before, topic_element(topic));
        assert(so_far.push(topic) =~= state.current->0.topic_configs + topics.take(upto));
        assert(opened == with_topics(state, topics.take(upto)));
        assert(close_tag(opened, "topic"@) == opened);
    }
}

/// The state between two records: the root is open, nothing else is, and
/// the records that are read are `done`.
pub open spec fn between_records(done: Seq<ServerConnectionView>) -> LoadStateView {
    LoadStateView {
        in_connections: true,
        in_connection: false,
        in_folders: false,
        in_topics: false,
        current: None,
        done,
    }
}

/// A record as it is read back from its own pieces: the record itself,
/// but that its version counts as 1.0 where it is not the latest.
pub open spec fn as_loaded(c: ServerConnectionView) -> ServerConnectionView {
    ServerConnectionView {
        version: if c.version == ClusterVersion::LATEST {
            ClusterVersion::LATEST
        } else {
            ClusterVersion::VERSION_1_0
        },
        ..c
    }
}

/// Reading the folders block of a record adds the folders to the record
/// that is being read.
pub proof fn lemma_folders_block(state: LoadStateView, folders: Seq<Seq<char>>)
    requires
        state.in_connection,
        !state.in_folders,
        state.current is Some,
        state.current->0.folders.len() == 0,
    ensures
        run(state, block("folders"@, folder_nodes(folders))) == with_folders(state, folders),
{
    lemma_element_names();
    let inner = folder_nodes(folders);
    if folders.len() == 0 {
        assert(state.current->0.folders + folders =~= state.current->0.folders);
        assert(with_folders(state, folders) == state);
    } else {
        let open = XmlNodeView::Start(
            XmlElementView { name: "folders"@, attributes: Seq::empty() },
        );
        let close = XmlNodeView::End("folders"@);
        let opened = LoadStateView { in_folders: true, ..state };
        lemma_run_one(state, open);
        lemma_run_in_turn(state, seq![open], inner);
        lemma_folders_run(opened, folders, folders.len() as int);
        assert(inner.take(folders.len() as int) =~= inner);
        assert(folders.take(folders.len() as int) =~= folders);
        let filled = with_folders(opened, folders);
        lemma_run_in_turn(state, seq![open] + inner, seq![close]);
        lemma_run_one(filled, close);
        assert(close_tag(filled, "folders"@) == with_folders(state, folders));
    }
}

/// Reading the topics block of a record adds the topic entries to the
/// record that is being read.
pub proof fn lemma_topics_block(state: LoadStateView, topics: Seq<TopicEntryView>)
    requires
        state.in_connection,
        !state.in_folders,
        !state.in_topics,
        state.current is Some,
        state.current->0.topic_configs.len() == 0,
        names_differ(topics),
    ensures
        run(state, block("topics"@, topic_nodes(topics))) == with_topics(state, topics),
{
    lemma_element_names();
    let inner = topic_nodes(topics);
    if topics.len() == 0 {
        assert(state.current->0.topic_configs + topics =~= state.current->0.topic_configs);
        assert(with_topics(state, topics) == state);
    } else {
        let open = XmlNodeView::Start(XmlElementView { name: "topics"@, attributes: Seq::empty() });
        let close = XmlNodeView::End("topics"@);
        let opened = LoadStateView { in_topics: true, ..state };
        lemma_run_one(state, open);
        lemma_run_in_turn(state, seq![open], inner);
        lemma_topics_run(opened, topics, topics.len() as int);
        assert(inner.take(topics.len() as int) =~= inner);
        assert(topics.take(topics.len() as int) =~= topics);
        let filled = with_topics(opened, topics);
        lemma_run_in_turn(state, seq![open] + inner, seq![close]);
        lemma_run_one(filled, close);
        assert(close_tag(filled, "topics"@) == with_topics(state, topics));
    }
}

/// Reading the pieces of one record puts the record behind those that are
/// read.
pub proof fn lemma_connection_run(done: Seq<ServerConnectionView>, c: ServerConnectionView)
    requires
        names_differ(c.topic_configs),
    ensures
        run(between_records(done), connection_nodes(c)) == between_records(done.push(as_loaded(c))),
{
    lemma_element_names();
    lemma_connection_round_trip(c);
    let state = between_records(done);
    let open = XmlNodeView::Start(connection_element(c));
    let folders = block("folders"@, folder_nodes(c.folders));
    let topics = block("topics"@, topic_nodes(c.topic_configs));
    let close = XmlNodeView::End("connection"@);
    let started = LoadStateView {
        in_connection: true,
        current: Some(as_read_back(c)),
        ..state
    };
    lemma_run_one(state, open);
    assert(step(state, open) == started);
    lemma_run_in_turn(state, seq![open], folders);
    lemma_folders_block(started, c.folders);
    let with_f = with_folders(started, c.folders);
    lemma_run_in_turn(state, seq![open] + folders, topics);
    lemma_topics_block(with_f, c.topic_configs);
    let with_t = with_topics(with_f, c.topic_configs);
    lemma_run_in_turn(state, seq![open] + folders + topics, seq![close]);
    lemma_run_one(with_t, close);
    assert(as_read_back(c).folders + c.folders =~= c.folders);
    assert(as_read_back(c).topic_configs + c.topic_configs =~= c.topic_configs);
    assert(with_t.current->0 == as_loaded(c));
    assert(close_tag(with_t, "connection"@) == between_records(done.push(as_loaded(c))));
}

/// The records as they are read back from their own pieces.
pub open spec fn all_as_loaded(connections: Seq<ServerConnectionView>) -> Seq<
    ServerConnectionView,
> {
    Seq::new(connections.len(), |i: int| as_loaded(connections[i]))
}

/// In no record do two topic entries have the same name.
pub open spec fn all_names_differ(connections: Seq<ServerConnectionView>) -> bool {
    forall|i: int|
        0 <= i < connections.len() ==> names_differ((#[trigger] connections[i]).topic_configs)
}

/// Reading the pieces of the records one after the other puts each record
/// behind those that are read.
pub proof fn lemma_all_connections_run(connections: Seq<ServerConnectionView>)
    requires
        all_names_differ(connections),
    ensures
        run(between_records(Seq::empty()), all_connection_nodes(connections)) == between_records(all_as_loaded(connections)),
    decreases connections.len(),
{
    if connections.len() == 0 {
        assert(all_as_loaded(connections) =~= Seq::<ServerConnectionView>::empty());
    } else {
        let shorter = connections.drop_last();
        assert forall|i: int| 0 <= i < shorter.len() implies names_differ(
            (#[trigger] shorter[i]).topic_configs,
        ) by {
            assert(shorter[i] == connections[i]);
        }
        lemma_all_connections_run(shorter);
        assert(names_differ(connections[connections.len() - 1].topic_configs));
        lemma_connection_run(all_as_loaded(shorter), connections.last());
        lemma_run_in_turn(
            between_records(Seq::empty()),
            all_connection_nodes(shorter),
            connection_nodes(connections.last()),
        );
        assert(all_as_loaded(shorter).push(as_loaded(connections.last())) =~= all_as_loaded(
            connections,
        ));
    }
}

/// The records of a store that are written as the pieces of a connections
/// file, each field as it is, are read back from the pieces as the records
/// they were, in their order, where in no record two topic entries have the
/// same name.
pub proof fn lemma_store_round_trip(connections: Seq<ServerConnectionView>)
    requires
        all_names_differ(connections),
    ensures
        records_of(store_nodes(connections)) == all_as_loaded(connections),
{
    lemma_element_names();
    let open = XmlNodeView::Start(
        XmlElementView { name: "connections"@, attributes: Seq::empty() },
    );
    let close = XmlNodeView::End("connections"@);
    let inner = all_connection_nodes(connections);
    lemma_run_one(initial_state(), open);
    assert(step(initial_state(), open) == between_records(Seq::empty()));
    lemma_run_in_turn(initial_state(), seq![open], inner);
    lemma_all_connections_run(connections);
    lemma_run_in_turn(initial_state(), seq![open] + inner, seq![close]);
    lemma_run_one(between_records(all_as_loaded(connections)), close);
}

/// Records that make a store in order can be added one after the other to
/// an empty store, which then holds them as they are.
pub proof fn lemma_add_all_fills(next_id: i64, records: Seq<ServerConnectionView>)
    requires
        store_wf(records),
    ensures
        add_all_outcome(StoreView { connections: Seq::empty(), next_id }, records) == Ok::<
            StoreView,
            ConfigError,
        >(StoreView { connections: records, next_id }),
    decreases records.len(),
{
    let empty = StoreView { connections: Seq::<ServerConnectionView>::empty(), next_id };
    if records.len() == 0 {
        assert(records =~= Seq::<ServerConnectionView>::empty());
    } else {
        let shorter = records.drop_last();
        let last = records.last();
        assert(store_wf(shorter)) by {
            assert forall|i: int| 0 <= i < shorter.len() implies (#[trigger] shorter[i]).id
                != 0 by {
                assert(shorter[i] == records[i]);
            }
            assert forall|i: int, j: int|
                #![trigger shorter[i], shorter[j]]
                0 <= i < j < shorter.len() implies shorter[i].id != shorter[j].id
                && !same_ignoring_ascii_case(shorter[i].name, shorter[j].name) by {
                assert(shorter[i] == records[i]);
                assert(shorter[j] == records[j]);
            }
        }
        lemma_add_all_fills(next_id, shorter);
        let before = StoreView { connections: shorter, next_id };
        assert(last == records[records.len() - 1]);
        assert(last.id != 0);
        assert(!has_id(shorter, last.id)) by {
            if has_id(shorter, last.id) {
                let i = choose|i: int| 0 <= i < shorter.len() && #[trigger] shorter[i].id == last.id;
                assert(shorter[i] == records[i]);
                assert(records[i].id != records[records.len() - 1].id);
            }
        }
        assert(!has_name(shorter, last.name)) by {
            if has_name(shorter, last.name) {
                let i = choose|i: int|
                    0 <= i < shorter.len() && same_ignoring_ascii_case(
                        #[trigger] shorter[i].name,
                        last.name,
                    );
                assert(shorter[i] == records[i]);
                assert(!same_ignoring_ascii_case(
                    records[i].name,
                    records[records.len() - 1].name,
                ));
            }
        }
        assert(shorter.push(last) =~= records);
        assert(add_outcome(before, last) == Ok::<StoreView, ConfigError>(
            StoreView { connections: records, next_id },
        ));
    }
}

/// Records that make a store in order still do when they are read back
/// from their own pieces.
pub proof fn lemma_loaded_store_wf(connections: Seq<ServerConnectionView>)
    requires
        store_wf(connections),
    ensures
        store_wf(all_as_loaded(connections)),
{
    let loaded = all_as_loaded(connections);
    assert forall|i: int| 0 <= i < loaded.len() implies (#[trigger] loaded[i]).id != 0 by {
        assert(connections[i].id != 0);
    }
    assert forall|i: int, j: int|
        #![trigger loaded[i], loaded[j]]
        0 <= i < j < loaded.len() implies loaded[i].id != loaded[j].id
        && !same_ignoring_ascii_case(loaded[i].name, loaded[j].name) by {
        assert(connections[i].id != connections[j].id);
    }
}

/// Every secret of every record fits the codec's buffer.
pub open spec fn all_secrets_fit(connections: Seq<ServerConnectionView>) -> bool {
    forall|i: int| 0 <= i < connections.len() ==> secrets_fit(#[trigger] connections[i])
}

/// Records whose secrets fit the buffer are masked one by one.
pub proof fn lemma_masked_one_by_one(connections: Seq<ServerConnectionView>)
    requires
        all_secrets_fit(connections),
    ensures
        masked_records(connections) is Ok,
        masked_records(connections)->Ok_0.len() == connections.len(),
        forall|i: int|
            0 <= i < connections.len() ==> masked_record(connections[i]) is Ok && (
            #[trigger] masked_records(connections)->Ok_0[i]) == masked_record(
                connections[i],
            )->Ok_0,
    decreases connections.len(),
{
    if connections.len() > 0 {
        let front = connections.drop_last();
        assert forall|i: int| 0 <= i < front.len() implies secrets_fit(#[trigger] front[i]) by {
            assert(front[i] == connections[i]);
        }
        lemma_masked_one_by_one(front);
        assert(secrets_fit(connections[connections.len() - 1]));
        lemma_masked_record_refusal(connections.last());
        let masked = masked_records(connections)->Ok_0;
        assert forall|i: int| 0 <= i < connections.len() implies masked_record(
            connections[i],
        ) is Ok && (#[trigger] masked[i]) == masked_record(connections[i])->Ok_0 by {
            if i < front.len() {
                assert(front[i] == connections[i]);
                assert(masked[i] == masked_records(front)->Ok_0[i]);
            }
            assert(secrets_fit(connections[i]));
            lemma_masked_record_refusal(connections[i]);
        }
    }
}

/// A record that is masked, read back from its pieces and unmasked is the
/// record as it is read back from its own pieces.
pub proof fn lemma_masked_record_read_back(c: ServerConnectionView)
    requires
        secrets_fit(c),
    ensures
        masked_record(c) is Ok,
        unmasked_record(as_loaded(masked_record(c)->Ok_0)) == Ok::<
            ServerConnectionView,
            ConfigError,
        >(as_loaded(c)),
{
    lemma_record_comes_back(c);
}

/// Records that are masked, read back from their pieces and unmasked are
/// the records as they are read back from their own pieces.
pub proof fn lemma_masked_records_read_back(connections: Seq<ServerConnectionView>)
    requires
        all_secrets_fit(connections),
    ensures
        masked_records(connections) is Ok,
        unmasked_records(all_as_loaded(masked_records(connections)->Ok_0)) == Ok::<
            Seq<ServerConnectionView>,
            ConfigError,
        >(all_as_loaded(connections)),
    decreases connections.len(),
{
    lemma_masked_one_by_one(connections);
    let masked = masked_records(connections)->Ok_0;
    let read = all_as_loaded(masked);
    if connections.len() > 0 {
        let front = connections.drop_last();
        assert forall|i: int| 0 <= i < front.len() implies secrets_fit(#[trigger] front[i]) by {
            assert(front[i] == connections[i]);
        }
        lemma_masked_records_read_back(front);
        lemma_masked_one_by_one(front);
        let front_masked = masked_records(front)->Ok_0;
        assert(read.drop_last() =~= all_as_loaded(front_masked)) by {
            assert forall|i: int| 0 <= i < front.len() implies read.drop_last()[i]
                == all_as_loaded(front_masked)[i] by {
                assert(front[i] == connections[i]);
                assert(masked[i] == masked_record(connections[i])->Ok_0);
                assert(front_masked[i] == masked_record(front[i])->Ok_0);
            }
        }
        let last = connections.last();
        assert(secrets_fit(connections[connections.len() - 1]));
        lemma_masked_record_read_back(last);
        assert(masked[connections.len() - 1] == masked_record(last)->Ok_0);
        assert(read.last() == as_loaded(masked_record(last)->Ok_0));
        assert(all_as_loaded(front).push(as_loaded(last)) =~= all_as_loaded(connections));
    } else {
        assert(read =~= Seq::empty());
        assert(all_as_loaded(connections) =~= Seq::empty());
    }
}

/// A store in order whose secrets fit the buffer survives its file: it is
/// written, and an empty store that reads the pieces takes all of its
/// records in their order, each with its id and its secrets. Only the
/// version of a record may change, to 1.0 where it is not the latest.
pub proof fn lemma_store_survives_file(connections: Seq<ServerConnectionView>, next_id: i64)
    requires
        store_wf(connections),
        all_names_differ(connections),
        all_secrets_fit(connections),
    ensures
        masked_records(connections) is Ok,
        file_loads(
            StoreView { connections: Seq::empty(), next_id },
            store_nodes(masked_records(connections)->Ok_0),
            StoreView { connections: all_as_loaded(connections), next_id },
            Ok(()),
        ),
{
    lemma_masked_one_by_one(connections);
    let masked = masked_records(connections)->Ok_0;
    assert forall|i: int| 0 <= i < masked.len() implies names_differ(
        (#[trigger] masked[i]).topic_configs,
    ) by {
        assert(masked[i] == masked_record(connections[i])->Ok_0);
        assert(names_differ(connections[i].topic_configs));
    }
    lemma_store_round_trip(masked);
    lemma_masked_records_read_back(connections);
    lemma_loaded_store_wf(connections);
    lemma_add_all_fills(next_id, all_as_loaded(connections));
}

} // verus!
