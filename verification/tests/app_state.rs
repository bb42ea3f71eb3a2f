use coyote::command::Command;
use coyote::counter::{Model, Msg};
use coyote::matrix::Matrix4d;

#[test]
fn commands_are_recognised() {
    assert_eq!(Command::parse("addsubreddit"), Command::AddSubreddit);
    assert_eq!(Command::parse("fetchdata"), Command::FetchData);
    assert_eq!(Command::parse("viewerrors"), Command::ViewErrors);
    assert_eq!(Command::parse("retryerror"), Command::RetryError);
    assert_eq!(Command::parse("help"), Command::Help);
    assert_eq!(Command::parse("Help"), Command::Unknown);
    assert_eq!(Command::parse(""), Command::Unknown);
    assert_eq!(Command::parse("fetchdata "), Command::Unknown);
}

#[test]
fn counter_counts_clicks() {
    let mut m = Model::create();
    assert_eq!(m.value, 0);
    for k in 1..=5 {
        assert!(m.update(Msg::AddOne));
        assert_eq!(m.value, k);
    }
    assert!(!m.change());
    assert_eq!(m.value, 5);
}

#[test]
fn transpose_moves_entries() {
    let m = Matrix4d { mat: [[1, 2, 3, 4], [5, 6, 7, 8], [9, 10, 11, 12], [13, 14, 15, 16]] };
    let t = Matrix4d::transpose(&m);
    assert_eq!(t.mat, [[1, 5, 9, 13], [2, 6, 10, 14], [3, 7, 11, 15], [4, 8, 12, 16]]);
    assert_eq!(Matrix4d::transpose(&t).mat, m.mat);
}

#[test]
fn transpose_of_float_matrix() {
    let b = Matrix4d {
        mat: [[1., 1., 0., 0.], [0., 1., 0., 0.], [0., 0., 1., 0.], [0., 0., 0., 1f32]],
    };
    let d = Matrix4d::transpose(&b);
    assert_eq!(d.mat, [[1., 0., 0., 0.], [1., 1., 0., 0.], [0., 0., 1., 0.], [0., 0., 0., 1f32]]);
}
