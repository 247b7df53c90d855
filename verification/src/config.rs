//! Persisted UI preferences, with the recent-applications list.
//!
//! The on-disk format and the watch-for-changes notification belong to
//! the host's configuration store; the library only defines the value,
//! its defaults, and how a store read resolves to a configuration.

use vstd::prelude::*;

use crate::recency::{RecentApplication, RecentView};

verus! {

/// How the panel button presents itself.
#[derive(Clone, Copy, Debug, PartialEq, Eq, Structural)]
pub enum AppletButtonStyle {
    IconOnly,
    LabelOnly,
    IconAndLabel,
    Auto,
}

impl Default for AppletButtonStyle {
    fn default() -> (r: Self)
        ensures
            r == AppletButtonStyle::Auto,
    {
        AppletButtonStyle::Auto
    }
}

/// Which name the logged-user widget prefers.
#[derive(Clone, Copy, Debug, PartialEq, Eq, Structural)]
pub enum UserWidgetStyle {
    UsernamePrefered,
    RealNamePrefered,
    Hidden,
}

impl Default for UserWidgetStyle {
    fn default() -> (r: Self)
        ensures
            r == UserWidgetStyle::UsernamePrefered,
    {
        UserWidgetStyle::UsernamePrefered
    }
}

/// Which side the application menu sits on.
#[derive(Clone, Copy, Debug, PartialEq, Eq, Structural)]
pub enum HorizontalPosition {
    Left,
    Right,
}

impl Default for HorizontalPosition {
    fn default() -> (r: Self)
        ensures
            r == HorizontalPosition::Left,
    {
        HorizontalPosition::Left
    }
}

/// Whether the search field sits above or below the list.
#[derive(Clone, Copy, Debug, PartialEq, Eq, Structural)]
pub enum VerticalPosition {
    Top,
    Bottom,
}

impl Default for VerticalPosition {
    fn default() -> (r: Self)
        ensures
            r == VerticalPosition::Top,
    {
        VerticalPosition::Top
    }
}

/// The persisted settings of the menu.
#[derive(Debug)]
pub struct CosmicClassicMenuConfig {
    pub app_menu_position: HorizontalPosition,
    pub search_field_position: VerticalPosition,
    pub applet_button_style: AppletButtonStyle,
    pub user_widget: UserWidgetStyle,
    pub recent_applications: Vec<RecentApplication>,
}

/// Mathematical model of a [`CosmicClassicMenuConfig`].
#[verifier::ext_equal]
pub ghost struct ConfigView {
    pub app_menu_position: HorizontalPosition,
    pub search_field_position: VerticalPosition,
    pub applet_button_style: AppletButtonStyle,
    pub user_widget: UserWidgetStyle,
    pub recent_applications: Seq<RecentView>,
}

impl View for CosmicClassicMenuConfig {
    type V = ConfigView;

    open spec fn view(&self) -> ConfigView {
        ConfigView {
            app_menu_position: self.app_menu_position,
            search_field_position: self.search_field_position,
            applet_button_style: self.applet_button_style,
            user_widget: self.user_widget,
            recent_applications: self.recent_applications.deep_view(),
        }
    }
}

/// The configuration a fresh installation starts from.
pub open spec fn default_config_view() -> ConfigView {
    ConfigView {
        app_menu_position: HorizontalPosition::Left,
        search_field_position: VerticalPosition::Top,
        applet_button_style: AppletButtonStyle::Auto,
        user_widget: UserWidgetStyle::UsernamePrefered,
        recent_applications: Seq::empty(),
    }
}

impl Default for CosmicClassicMenuConfig {
    fn default() -> (r: Self)
        ensures
            r@ == default_config_view(),
    {
        let r = CosmicClassicMenuConfig {
            app_menu_position: HorizontalPosition::Left,
            search_field_position: VerticalPosition::Top,
            applet_button_style: AppletButtonStyle::Auto,
            user_widget: UserWidgetStyle::UsernamePrefered,
            recent_applications: Vec::new(),
        };
        proof {
            assert(r.recent_applications.deep_view() =~= Seq::<RecentView>::empty());
            assert(r@ =~= default_config_view());
        }
        r
    }
}

impl CosmicClassicMenuConfig {
    /// Resolves a configuration-store read: the stored value when the
    /// store yielded one, the defaults when it did not — a missing or
    /// unreadable store never propagates an error.
    pub fn config(loaded: Option<CosmicClassicMenuConfig>) -> (r: CosmicClassicMenuConfig)
        ensures
            match loaded {
                Option::Some(c) => r == c,
                Option::None => r@ == default_config_view(),
            },
    {
        match loaded {
            Option::Some(c) => c,
            Option::None => CosmicClassicMenuConfig::default(),
        }
    }
}

} // verus!
