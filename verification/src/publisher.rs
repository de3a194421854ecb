//! Publication of tags over MQTT.
//!
//! The [`MqttPublisher`] contract pins, for every implementation, which
//! messages a publish call emits: the topic derived from the tag's path, the
//! tag's JSON record as UTF-8 payload, and the retain flag set. The
//! [`MqttClient`] trait is the transport underneath; the in-memory
//! [`MemoryMqttClient`] records messages instead of sending them, and a
//! network-backed client lives outside the crate.

use crate::codec::{database_to_json, db_json, tag_json, tag_to_json};
use crate::error::UnsError;
use crate::tag::{tag_views, topic_of, Tag, TagM};
use crate::tag_map::{EntryM, TagMap};
use vstd::prelude::*;
use vstd::string::StrSliceExecFns;
use vstd::utf8::encode_utf8;

verus! {

/// Mathematical view of one MQTT message.
pub ghost struct MsgM {
    pub topic: Seq<char>,
    pub payload: Seq<u8>,
    pub retain: bool,
}

/// One MQTT message: topic, payload bytes, and the retain flag.
#[derive(Debug)]
pub struct MqttMessage {
    pub topic: String,
    pub payload: Vec<u8>,
    pub retain: bool,
}

impl View for MqttMessage {
    type V = MsgM;

    open spec fn view(&self) -> MsgM {
        MsgM { topic: self.topic@, payload: self.payload@, retain: self.retain }
    }
}

impl Clone for MqttMessage {
    fn clone(&self) -> (r: Self)
        ensures
            r@ == self@,
    {
        let mut payload: Vec<u8> = Vec::new();
        let mut i: usize = 0;
        while i < self.payload.len()
            invariant
                i <= self.payload@.len(),
                payload@ == self.payload@.take(i as int),
            decreases self.payload@.len() - i,
        {
            payload.push(self.payload[i]);
            i = i + 1;
            proof {
                assert(payload@ =~= self.payload@.take(i as int));
            }
        }
        proof {
            assert(self.payload@.take(self.payload@.len() as int) =~= self.payload@);
        }
        MqttMessage { topic: self.topic.clone(), payload, retain: self.retain }
    }
}

/// The message publishing one tag: its topic, its JSON record encoded as
/// UTF-8, retained.
pub open spec fn tag_msg(t: TagM) -> MsgM {
    MsgM { topic: topic_of(t.path), payload: encode_utf8(tag_json(t)), retain: true }
}

/// The messages publishing each tag of a sequence, in order.
pub open spec fn tag_msgs(ts: Seq<TagM>) -> Seq<MsgM> {
    ts.map_values(|t: TagM| tag_msg(t))
}

/// The message publishing a whole tag set: the serialized document, sent to
/// the fixed aggregate topic, retained.
pub open spec fn db_msg(es: Seq<EntryM>) -> MsgM {
    MsgM { topic: "tags/database"@, payload: encode_utf8(db_json(es)), retain: true }
}

/// The transport a publisher sends through.
///
/// An implementation must append exactly the given message to its send
/// history on success and leave the history unchanged on failure; what a
/// broker does with the message is outside this contract. An implementation
/// describes its history by overriding [`MqttClient::sent`]; the default is
/// for transports outside this crate, whose history is not modelled.
pub trait MqttClient {
    /// Every message sent through this client so far, oldest first.
    open spec fn sent(&self) -> Seq<MsgM> {
        Seq::empty()
    }

    /// Sends one message to a topic.
    fn publish(&mut self, topic: &str, payload: Vec<u8>, retain: bool) -> (r: Result<
        (),
        UnsError,
    >)
        ensures
            (match r {
                Ok(_) => final(self).sent() == old(self).sent().push(
                    MsgM { topic: topic@, payload: payload@, retain },
                ),
                Err(e) => final(self).sent() == old(self).sent() && e is Mqtt,
            }),
    ;

    /// Subscribes to a topic; sends nothing.
    fn subscribe(&mut self, topic: &str) -> (r: Result<(), UnsError>)
        ensures
            final(self).sent() == old(self).sent(),
            (match r {
                Ok(_) => true,
                Err(e) => e is Mqtt,
            }),
    ;

    /// A client with the same send history, for handing the transport to
    /// another owner.
    fn duplicate(&self) -> (r: Self) where Self: Sized
        ensures
            r.sent() == self.sent(),
    ;
}

/// An in-memory client: records every message instead of sending it.
#[derive(Debug)]
pub struct MemoryMqttClient {
    pub messages: Vec<MqttMessage>,
    pub subscriptions: Vec<String>,
}

impl MemoryMqttClient {
    /// Creates a client with an empty send history.
    pub fn new() -> (r: Self)
        ensures
            r.sent() == Seq::<MsgM>::empty(),
            r.messages@.len() == 0,
    {
        let r = MemoryMqttClient { messages: Vec::new(), subscriptions: Vec::new() };
        proof {
            assert(r.sent() =~= Seq::<MsgM>::empty());
        }
        r
    }
}

impl Clone for MemoryMqttClient {
    fn clone(&self) -> (r: Self)
        ensures
            r.sent() == self.sent(),
            r.subscriptions@.len() == self.subscriptions@.len(),
    {
        let mut messages: Vec<MqttMessage> = Vec::new();
        let mut i: usize = 0;
        while i < self.messages.len()
            invariant
                i <= self.messages@.len(),
                messages@.len() == i,
                forall|j: int| 0 <= j < i ==> messages@[j]@ == self.messages@[j]@,
            decreases self.messages@.len() - i,
        {
            messages.push(self.messages[i].clone());
            i = i + 1;
        }
        let mut subscriptions: Vec<String> = Vec::new();
        let mut k: usize = 0;
        while k < self.subscriptions.len()
            invariant
                k <= self.subscriptions@.len(),
                subscriptions@.len() == k,
            decreases self.subscriptions@.len() - k,
        {
            subscriptions.push(self.subscriptions[k].clone());
            k = k + 1;
        }
        let r = MemoryMqttClient { messages, subscriptions };
        proof {
            assert(r.sent() =~= self.sent());
        }
        r
    }
}

impl MqttClient for MemoryMqttClient {
    open spec fn sent(&self) -> Seq<MsgM> {
        self.messages@.map_values(|m: MqttMessage| m@)
    }

    fn duplicate(&self) -> (r: Self) {
        self.clone()
    }

    fn publish(&mut self, topic: &str, payload: Vec<u8>, retain: bool) -> (r: Result<
        (),
        UnsError,
    >) {
        let ghost before = self.sent();
        let ghost msg = MsgM { topic: topic@, payload: payload@, retain };
        self.messages.push(MqttMessage { topic: String::from_str(topic), payload, retain });
        proof {
            assert(self.sent() =~= before.push(msg));
        }
        Ok(())
    }

    fn subscribe(&mut self, topic: &str) -> (r: Result<(), UnsError>) {
        self.subscriptions.push(String::from_str(topic));
        Ok(())
    }
}

/// The tag set as published to the aggregate topic.
pub struct TagDatabase {
    pub tags: TagMap,
}

/// Publication of single tags and snapshots.
///
/// Every implementation must emit exactly the messages stated here: for one
/// tag, [`tag_msg`] of it; for a batch, one message per tag in the given
/// order, stopping at the first transport failure; for a snapshot,
/// [`db_msg`] of the set.
pub trait MqttPublisher {
    /// Every message published so far, oldest first.
    open spec fn sent(&self) -> Seq<MsgM> {
        Seq::empty()
    }

    /// Publishes one tag to its own topic, retained.
    fn publish_tag(&mut self, tag: &Tag) -> (r: Result<(), UnsError>)
        ensures
            (match r {
                Ok(_) => final(self).sent() == old(self).sent().push(tag_msg(tag@)),
                Err(e) => final(self).sent() == old(self).sent() && e is Mqtt,
            }),
    ;

    /// Publishes each tag individually, sequentially, in the given order,
    /// stopping at the first failure; no retry, no rollback of what was
    /// already sent.
    fn publish_tags(&mut self, tags: &Vec<Tag>) -> (r: Result<(), UnsError>)
        ensures
            (match r {
                Ok(_) => final(self).sent() == old(self).sent() + tag_msgs(tag_views(tags@)),
                Err(e) => e is Mqtt && exists|k: int|
                    0 <= k < tags@.len() && final(self).sent() == old(self).sent() + tag_msgs(
                        tag_views(tags@),
                    ).take(k),
            }),
    ;

    /// Publishes the whole set as one message to the aggregate topic,
    /// retained.
    fn publish_database(&mut self, data: &TagDatabase) -> (r: Result<(), UnsError>)
        ensures
            (match r {
                Ok(_) => final(self).sent() == old(self).sent().push(db_msg(data.tags@)),
                Err(e) => final(self).sent() == old(self).sent() && e is Mqtt,
            }),
    ;

    /// A publisher with the same send history, for handing the transport to
    /// another owner.
    fn duplicate(&self) -> (r: Self) where Self: Sized
        ensures
            r.sent() == self.sent(),
    ;
}

/// The production publisher: serializes tags and sends them through an
/// [`MqttClient`].
pub struct MqttTagPublisher<C: MqttClient> {
    pub client: C,
}

impl<C: MqttClient> MqttTagPublisher<C> {
    /// Creates a publisher over the given transport.
    pub fn new(client: C) -> (r: Self)
        ensures
            r.sent() == client.sent(),
    {
        MqttTagPublisher { client }
    }
}

impl<C: MqttClient> MqttPublisher for MqttTagPublisher<C> {
    open spec fn sent(&self) -> Seq<MsgM> {
        self.client.sent()
    }

    fn duplicate(&self) -> (r: Self) {
        MqttTagPublisher { client: self.client.duplicate() }
    }

    fn publish_tag(&mut self, tag: &Tag) -> (r: Result<(), UnsError>) {
        let topic = tag.to_mqtt_topic();
        let payload_str = tag_to_json(tag);
        let payload = payload_str.as_str().as_bytes_vec();
        self.client.publish(topic.as_str(), payload, true)
    }

    fn publish_tags(&mut self, tags: &Vec<Tag>) -> (r: Result<(), UnsError>) {
        let mut i: usize = 0;
        while i < tags.len()
            invariant
                i <= tags@.len(),
                self.sent() == old(self).sent() + tag_msgs(tag_views(tags@)).take(i as int),
            decreases tags@.len() - i,
        {
            match self.publish_tag(&tags[i]) {
                Ok(_) => {},
                Err(e) => {
                    proof {
                        assert((i as int) < tags@.len() && self.sent() == old(self).sent()
                            + tag_msgs(tag_views(tags@)).take(i as int));
                    }
                    return Err(e);
                },
            }
            i = i + 1;
            proof {
                assert(tag_msgs(tag_views(tags@)).take(i as int) =~= tag_msgs(
                    tag_views(tags@),
                ).take(i - 1).push(tag_msg(tags@[i - 1]@)));
                assert(self.sent() =~= old(self).sent() + tag_msgs(tag_views(tags@)).take(
                    i as int,
                ));
            }
        }
        proof {
            assert(tag_msgs(tag_views(tags@)).take(tags@.len() as int) =~= tag_msgs(
                tag_views(tags@),
            ));
        }
        Ok(())
    }

    fn publish_database(&mut self, data: &TagDatabase) -> (r: Result<(), UnsError>) {
        let payload_str = database_to_json(&data.tags);
        let payload = payload_str.as_str().as_bytes_vec();
        self.client.publish("tags/database", payload, true)
    }
}

} // verus!
