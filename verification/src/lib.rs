//! Sprite-sheet frame animation driven by discrete action values.
//!
//! An action value resolves, through an [`AnimationMap`], to an
//! [`AnimationSet`]: an ordered list of animation steps together with an
//! ordering policy. The steps are expanded into a per-entity
//! [`AnimationQueue`], and a per-tick advance routine steps the current
//! frame index, detects completion, installs the next queued step and
//! reports the trigger actions the finished step had pending.
//!
//! Time is measured in the integer units of the host clock (for instance
//! microseconds); the crate never interprets the unit itself.

mod clip;
mod group;
mod laws;
mod state;
mod system;
mod timer;

pub use clip::Clip;
pub use clip::ClipMap;
pub use clip::frame_in_range;
pub use group::AnimationAttribute;
pub use group::AnimationClip;
pub use group::AnimationClipOrder;
pub use group::AnimationMap;
pub use group::AnimationSet;
pub use group::SetView;
pub use group::StepView;
pub use group::effective_order;
pub use group::loop_flag;
pub use group::step_views;
pub use group::trigger_actions;
pub use state::AnimationQueue;
pub use state::AnimationState;
pub use state::SpriteFrame;
pub use state::StateView;
pub use system::AdvanceOutcome;
pub use system::advance_animation;
pub use system::advance_spec;
pub use system::completes;
pub use system::expanded;
pub use system::installed_sprite;
pub use system::installed_state;
pub use system::is_complete;
pub use system::next_frame;
pub use system::queue_action;
pub use system::queue_animation_set;
pub use laws::lemma_attribute_application;
pub use laws::lemma_deferred_resolution;
pub use laws::lemma_once_terminal_hold;
pub use laws::lemma_repeating_completion_installs_next;
pub use laws::lemma_repeating_wrap;
pub use timer::Timer;
pub use timer::timer_after_tick;
