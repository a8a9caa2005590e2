//! A tarot card-rule engine and a typed, queue-based packet transport.
//!
//! `cartes` holds the rules of play (deck, trick winner, legal cards);
//! `menu` what the main menu does with an event;
//! `paquet` the application messages; `transport` the outbound and inbound
//! queues that sit between the application and a byte stream, with the
//! framing laws that make a self-delimiting codec round-trip.

pub mod cartes;
pub mod menu;
pub mod paquet;
pub mod transport;
