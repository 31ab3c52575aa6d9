//! Messages that the broker hands back, and the outcome of a publisher
//! confirm.

use crate::table::FieldTable;
use vstd::prelude::*;

verus! {

/// The properties that travel with the content of a message.
#[derive(Clone, Debug, Default, PartialEq, Eq)]
pub struct BasicProperties {
    pub content_type: Option<String>,
    pub content_encoding: Option<String>,
    pub headers: Option<FieldTable>,
    pub delivery_mode: Option<u8>,
    pub priority: Option<u8>,
    pub correlation_id: Option<String>,
    pub reply_to: Option<String>,
    pub expiration: Option<String>,
    pub message_id: Option<String>,
    pub timestamp: Option<u64>,
    pub kind: Option<String>,
    pub user_id: Option<String>,
    pub app_id: Option<String>,
    pub cluster_id: Option<String>,
}

/// A message as it was published: where it was sent, its properties and
/// its payload.
#[derive(Clone, Debug, PartialEq, Eq)]
pub struct Delivery {
    pub exchange: String,
    pub routing_key: String,
    pub properties: BasicProperties,
    pub data: Vec<u8>,
}

/// A message that the broker could not route and returned, with the
/// broker's reason.
#[derive(Clone, Debug, PartialEq, Eq)]
pub struct BasicReturnMessage {
    pub delivery: Delivery,
    pub reply_code: u16,
    pub reply_text: String,
}

/// The outcome of a publisher confirm.
#[derive(Clone, Debug, PartialEq, Eq)]
pub enum Confirmation {
    /// The broker took the message.
    Ack,
    /// The broker returned the message.
    Nack(BasicReturnMessage),
}

impl BasicProperties {
    /// The properties with none of them set.
    pub open spec fn unset() -> BasicProperties {
        BasicProperties {
            content_type: None,
            content_encoding: None,
            headers: None,
            delivery_mode: None,
            priority: None,
            correlation_id: None,
            reply_to: None,
            expiration: None,
            message_id: None,
            timestamp: None,
            kind: None,
            user_id: None,
            app_id: None,
            cluster_id: None,
        }
    }

    /// Properties with none of them set.
    pub fn new() -> (properties: BasicProperties)
        ensures
            properties == BasicProperties::unset(),
    {
        BasicProperties {
            content_type: None,
            content_encoding: None,
            headers: None,
            delivery_mode: None,
            priority: None,
            correlation_id: None,
            reply_to: None,
            expiration: None,
            message_id: None,
            timestamp: None,
            kind: None,
            user_id: None,
            app_id: None,
            cluster_id: None,
        }
    }
}

impl BasicReturnMessage {
    /// A returned message whose content has not arrived yet: default
    /// properties and an empty payload.
    pub fn new(
        exchange: String,
        routing_key: String,
        reply_code: u16,
        reply_text: String,
    ) -> (message: BasicReturnMessage)
        ensures
            message.delivery.exchange == exchange,
            message.delivery.routing_key == routing_key,
            message.delivery.properties == BasicProperties::unset(),
            message.delivery.data@ == Seq::<u8>::empty(),
            message.reply_code == reply_code,
            message.reply_text == reply_text,
    {
        BasicReturnMessage {
            delivery: Delivery {
                exchange,
                routing_key,
                properties: BasicProperties::new(),
                data: Vec::new(),
            },
            reply_code,
            reply_text,
        }
    }

    /// The message with other properties: all else is as in `self`.
    pub open spec fn with_properties(self, properties: BasicProperties) -> BasicReturnMessage {
        BasicReturnMessage {
            delivery: Delivery {
                exchange: self.delivery.exchange,
                routing_key: self.delivery.routing_key,
                properties,
                data: self.delivery.data,
            },
            reply_code: self.reply_code,
            reply_text: self.reply_text,
        }
    }

    /// Whether `longer` is this message with `bytes` added behind its
    /// payload and nothing else changed.
    pub open spec fn extended_by(self, bytes: Seq<u8>, longer: BasicReturnMessage) -> bool {
        &&& longer.delivery.exchange == self.delivery.exchange
        &&& longer.delivery.routing_key == self.delivery.routing_key
        &&& longer.delivery.properties == self.delivery.properties
        &&& longer.delivery.data@ == self.delivery.data@ + bytes
        &&& longer.reply_code == self.reply_code
        &&& longer.reply_text == self.reply_text
    }
}

} // verus!
