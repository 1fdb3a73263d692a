//! The notification record: what one notification carries, including the
//! parsed hint block, as plain values.

use vstd::prelude::*;

verus! {

/// The importance a sender attached to a notification.
#[derive(Clone, Copy, Debug, PartialEq, Eq)]
pub enum Urgency {
    Low,
    Normal,
    Critical,
}

impl Urgency {
    /// The meaning of the wire urgency level: 0 is low, 1 normal,
    /// 2 critical; any other or absent level defaults to normal.
    pub open spec fn spec_of_level(level: Option<u8>) -> Urgency {
        match level {
            Some(l) => if l == 0 {
                Urgency::Low
            } else if l == 1 {
                Urgency::Normal
            } else if l == 2 {
                Urgency::Critical
            } else {
                Urgency::Normal
            },
            None => Urgency::Normal,
        }
    }

    /// Interpret a wire urgency level.
    pub fn from_level(level: Option<u8>) -> (u: Urgency)
        ensures
            u == Urgency::spec_of_level(level),
    {
        match level {
            Some(l) => {
                if l == 0 {
                    Urgency::Low
                } else if l == 1 {
                    Urgency::Normal
                } else if l == 2 {
                    Urgency::Critical
                } else {
                    Urgency::Normal
                }
            },
            None => Urgency::Normal,
        }
    }
}

/// A raw image payload: width, height, row stride, has-alpha, bits per
/// sample, channel count, and the pixel bytes.
pub type NotificationImageData = (i32, i32, i32, bool, i32, i32, Vec<u8>);

/// The recognised entries of a notification's open-ended hint map, as
/// plain values looked up from the wire.
#[derive(Debug, PartialEq, Eq)]
pub struct NotificationHints {
    pub urgency: Urgency,
    pub desktop_entry: Option<String>,
    pub category: Option<String>,
    pub action_icons: Option<bool>,
    pub image_data: Option<NotificationImageData>,
    pub image_path: Option<String>,
    pub icon_data: Option<NotificationImageData>,
}

impl NotificationHints {
    /// Assemble the hint block from the looked-up wire values; the urgency
    /// level is interpreted per `Urgency::spec_of_level`.
    pub fn from_lookups(
        urgency: Option<u8>,
        desktop_entry: Option<String>,
        category: Option<String>,
        action_icons: Option<bool>,
        image_data: Option<NotificationImageData>,
        image_path: Option<String>,
        icon_data: Option<NotificationImageData>,
    ) -> (h: Self)
        ensures
            h.urgency == Urgency::spec_of_level(urgency),
            h.desktop_entry == desktop_entry,
            h.category == category,
            h.action_icons == action_icons,
            h.image_data == image_data,
            h.image_path == image_path,
            h.icon_data == icon_data,
    {
        NotificationHints {
            urgency: Urgency::from_level(urgency),
            desktop_entry,
            category,
            action_icons,
            image_data,
            image_path,
            icon_data,
        }
    }
}

/// One notification: its stable identifier and everything the Notify
/// request carried, plus the creation timestamp the server recorded.
#[derive(Debug, PartialEq, Eq)]
pub struct NotificationItem {
    pub id: u32,
    pub app_name: String,
    pub replaces_id: u32,
    pub app_icon: String,
    pub summary: String,
    pub body: String,
    pub actions: Vec<String>,
    pub hints: NotificationHints,
    pub expire_timeout: i32,
    pub timestamp: Option<i64>,
}

impl NotificationItem {
    /// Build a record from parsed request arguments. When no key has been
    /// assigned yet (`id` is `None`) the record carries its `replaces_id`
    /// as its identifier, matching the reply for an overwrite.
    pub fn new(
        id: Option<u32>,
        app_name: String,
        replaces_id: u32,
        app_icon: String,
        summary: String,
        body: String,
        actions: Vec<String>,
        hints: NotificationHints,
        expire_timeout: i32,
        timestamp: Option<i64>,
    ) -> (n: Self)
        ensures
            n.id == (match id {
                Some(i) => i,
                None => replaces_id,
            }),
            n.app_name == app_name,
            n.replaces_id == replaces_id,
            n.app_icon == app_icon,
            n.summary == summary,
            n.body == body,
            n.actions == actions,
            n.hints == hints,
            n.expire_timeout == expire_timeout,
            n.timestamp == timestamp,
    {
        let chosen: u32 = match id {
            Some(i) => i,
            None => replaces_id,
        };
        NotificationItem {
            id: chosen,
            app_name,
            replaces_id,
            app_icon,
            summary,
            body,
            actions,
            hints,
            expire_timeout,
            timestamp,
        }
    }

    /// Overwrite this record in place with another, keeping the current
    /// timestamp when the other carries none.
    pub fn overwrite(&mut self, notification: Self)
        ensures
            final(self).id == notification.id,
            final(self).app_name == notification.app_name,
            final(self).replaces_id == notification.replaces_id,
            final(self).app_icon == notification.app_icon,
            final(self).summary == notification.summary,
            final(self).body == notification.body,
            final(self).actions == notification.actions,
            final(self).hints == notification.hints,
            final(self).expire_timeout == notification.expire_timeout,
            final(self).timestamp == (match notification.timestamp {
                Some(t) => Some(t),
                None => old(self).timestamp,
            }),
    {
        let kept: Option<i64> = self.timestamp;
        let NotificationItem {
            id,
            app_name,
            replaces_id,
            app_icon,
            summary,
            body,
            actions,
            hints,
            expire_timeout,
            timestamp,
        } = notification;
        self.id = id;
        self.app_name = app_name;
        self.replaces_id = replaces_id;
        self.app_icon = app_icon;
        self.summary = summary;
        self.body = body;
        self.actions = actions;
        self.hints = hints;
        self.expire_timeout = expire_timeout;
        self.timestamp = match timestamp {
            Some(t) => Some(t),
            None => kept,
        };
    }

    /// The parsed hint block of this record.
    pub fn get_hints(&self) -> (h: &NotificationHints)
        ensures
            *h == self.hints,
    {
        &self.hints
    }
}

} // verus!
